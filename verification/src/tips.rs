//! Tips: one recorded number per player name.
//!
//! The same table serves for the bids of a round and for the tricks that the
//! players actually won. Its model is a finite map from names to numbers.

use vstd::prelude::*;
use vstd::std_specs::cmp::PartialEqSpecImpl;
use crate::player::Player;

verus! {

/// The sum of all values of a finite map.
pub open spec fn total(m: Map<Seq<char>, u8>) -> nat
    decreases m.dom().len(),
    when m.dom().finite()
{
    if m.dom().len() == 0 {
        0
    } else {
        let name = m.dom().choose();
        m[name] as nat + total(m.remove(name))
    }
}

/// The value recorded under `name`, or zero where nothing is recorded.
pub open spec fn tip_of(m: Map<Seq<char>, u8>, name: Seq<char>) -> u8 {
    if m.dom().contains(name) {
        m[name]
    } else {
        0
    }
}

/// Any one entry can be split off the sum, whichever it is.
pub proof fn lemma_total_remove(m: Map<Seq<char>, u8>, name: Seq<char>)
    requires
        m.dom().finite(),
        m.dom().contains(name),
    ensures
        total(m) == m[name] as nat + total(m.remove(name)),
    decreases m.dom().len(),
{
    let first = m.dom().choose();
    if first != name {
        lemma_total_remove(m.remove(first), name);
        lemma_total_remove(m.remove(name), first);
        assert(m.remove(first).remove(name) =~= m.remove(name).remove(first));
    }
}

/// Recording a value under a name replaces what that name contributed to
/// the sum.
pub proof fn lemma_total_insert(m: Map<Seq<char>, u8>, name: Seq<char>, value: u8)
    requires
        m.dom().finite(),
    ensures
        total(m.insert(name, value)) == total(m) - tip_of(m, name) + value,
{
    let after = m.insert(name, value);
    lemma_total_remove(after, name);
    assert(after.remove(name) =~= m.remove(name));
    if m.dom().contains(name) {
        lemma_total_remove(m, name);
    } else {
        assert(m.remove(name) =~= m);
    }
}

/// The empty map sums to zero.
pub proof fn lemma_total_empty()
    ensures
        total(Map::<Seq<char>, u8>::empty()) == 0,
{
}

/// The map that the first `n` entries of a table spell out: each entry
/// records its value under its name, a later entry replacing an earlier one
/// of the same name.
spec fn recorded(entries: Seq<(String, u8)>, n: nat) -> Map<Seq<char>, u8>
    decreases n,
{
    if n == 0 {
        Map::empty()
    } else {
        recorded(entries, (n - 1) as nat).insert(entries[n - 1].0@, entries[n - 1].1)
    }
}

/// No two entries carry the same name.
spec fn distinct(entries: Seq<(String, u8)>) -> bool {
    forall|i: int, j: int|
        0 <= i < j < entries.len() ==> (#[trigger] entries[i]).0@ != (#[trigger] entries[j]).0@
}

/// The names of the first `n` entries are exactly the recorded names, and
/// there are finitely many.
proof fn lemma_recorded_names(entries: Seq<(String, u8)>, n: nat)
    requires
        n <= entries.len(),
    ensures
        recorded(entries, n).dom().finite(),
        forall|name: Seq<char>| #[trigger]
            recorded(entries, n).dom().contains(name) <==> exists|i: int|
                0 <= i < n && (#[trigger] entries[i]).0@ == name,
    decreases n,
{
    if n > 0 {
        lemma_recorded_names(entries, (n - 1) as nat);
        let before = recorded(entries, (n - 1) as nat);
        assert forall|name: Seq<char>| #[trigger]
            recorded(entries, n).dom().contains(name) implies exists|i: int|
            0 <= i < n && (#[trigger] entries[i]).0@ == name by {
            if name == entries[n - 1].0@ {
                assert(entries[n - 1].0@ == name);
            } else {
                assert(before.dom().contains(name));
                let i = choose|i: int| 0 <= i < n - 1 && (#[trigger] entries[i]).0@ == name;
                assert(entries[i].0@ == name);
            }
        }
        assert forall|name: Seq<char>|
            (exists|i: int| 0 <= i < n && (#[trigger] entries[i]).0@ == name) implies #[trigger]
            recorded(entries, n).dom().contains(name) by {
            let i = choose|i: int| 0 <= i < n && (#[trigger] entries[i]).0@ == name;
            if i < n - 1 {
                assert(entries[i].0@ == name);
                assert(before.dom().contains(name));
            }
        }
    }
}

/// Where the names are distinct, every entry's value is the one recorded
/// under its name.
proof fn lemma_recorded_value(entries: Seq<(String, u8)>, n: nat, i: int)
    requires
        n <= entries.len(),
        distinct(entries),
        0 <= i < n,
    ensures
        recorded(entries, n).dom().contains(entries[i].0@),
        recorded(entries, n)[entries[i].0@] == entries[i].1,
    decreases n,
{
    if i < n - 1 {
        lemma_recorded_value(entries, (n - 1) as nat, i);
        assert(entries[i].0@ != entries[n - 1].0@);
    }
}

/// Tables that agree on their first `n` entries record the same map there.
proof fn lemma_recorded_agree(a: Seq<(String, u8)>, b: Seq<(String, u8)>, n: nat)
    requires
        n <= a.len(),
        n <= b.len(),
        forall|i: int| 0 <= i < n ==> a[i] == b[i],
    ensures
        recorded(a, n) == recorded(b, n),
    decreases n,
{
    if n > 0 {
        lemma_recorded_agree(a, b, (n - 1) as nat);
    }
}

/// Where the names are distinct, the values of the first `n` entries add up
/// to the sum of the map they record, and a longer prefix never sums to less.
proof fn lemma_recorded_total(entries: Seq<(String, u8)>, n: nat)
    requires
        n < entries.len(),
        distinct(entries),
    ensures
        total(recorded(entries, n + 1)) == total(recorded(entries, n)) + entries[n as int].1,
        total(recorded(entries, n)) <= total(recorded(entries, entries.len())),
    decreases entries.len() - n,
{
    lemma_recorded_names(entries, n);
    let before = recorded(entries, n);
    let name = entries[n as int].0@;
    assert(!before.dom().contains(name)) by {
        if before.dom().contains(name) {
            let i = choose|i: int| 0 <= i < n && (#[trigger] entries[i]).0@ == name;
            assert(entries[i].0@ != entries[n as int].0@);
        }
    }
    lemma_total_insert(before, name, entries[n as int].1);
    if n + 1 < entries.len() {
        lemma_recorded_total(entries, n + 1);
    }
}

/// Overwriting the value of entry `i` records the new value under that
/// entry's name and leaves everything else as it was.
proof fn lemma_recorded_update(entries: Seq<(String, u8)>, i: int, value: u8)
    requires
        distinct(entries),
        0 <= i < entries.len(),
    ensures
        distinct(entries.update(i, (entries[i].0, value))),
        recorded(entries.update(i, (entries[i].0, value)), entries.len()) == recorded(
            entries,
            entries.len(),
        ).insert(entries[i].0@, value),
{
    let n = entries.len();
    let after = entries.update(i, (entries[i].0, value));
    let name = entries[i].0@;
    assert(distinct(after)) by {
        assert forall|a: int, b: int| 0 <= a < b < after.len() implies (#[trigger] after[a]).0@ != (
        #[trigger] after[b]).0@ by {
            assert(after[a].0@ == entries[a].0@);
            assert(after[b].0@ == entries[b].0@);
        }
    }
    lemma_recorded_names(entries, n);
    lemma_recorded_names(after, n);
    let old_map = recorded(entries, n);
    let new_map = recorded(after, n);
    lemma_recorded_value(entries, n, i);
    assert forall|key: Seq<char>| new_map.dom().contains(key) <==> old_map.insert(
        name,
        value,
    ).dom().contains(key) by {
        if new_map.dom().contains(key) {
            let j = choose|j: int| 0 <= j < n && (#[trigger] after[j]).0@ == key;
            assert(entries[j].0@ == key);
        }
        if old_map.dom().contains(key) {
            let j = choose|j: int| 0 <= j < n && (#[trigger] entries[j]).0@ == key;
            assert(after[j].0@ == key);
        }
    }
    assert forall|key: Seq<char>| new_map.dom().contains(key) implies new_map[key] == old_map.insert(
        name,
        value,
    )[key] by {
        let j = choose|j: int| 0 <= j < n && (#[trigger] after[j]).0@ == key;
        lemma_recorded_value(after, n, j);
        lemma_recorded_value(entries, n, j);
        if j != i {
            if j < i {
                assert(entries[j].0@ != entries[i].0@);
            } else {
                assert(entries[i].0@ != entries[j].0@);
            }
        }
    }
    assert(new_map =~= old_map.insert(name, value));
}

/// A table of numbers, one per player name.
///
/// A round keeps two of them: the bids and the tricks actually won.
/// Recording a number for a name that already has one replaces it.
#[derive(Debug)]
pub struct Tips {
    entries: Vec<(String, u8)>,
}

impl View for Tips {
    type V = Map<Seq<char>, u8>;

    closed spec fn view(&self) -> Map<Seq<char>, u8> {
        recorded(self.entries@, self.entries@.len())
    }
}

/// The value that a table records under `name`, if it records one.
fn lookup(entries: &Vec<(String, u8)>, name: &String) -> (found: Option<u8>)
    ensures
        found == if recorded(entries@, entries@.len()).dom().contains(name@) {
            Some(recorded(entries@, entries@.len())[name@])
        } else {
            None
        },
{
    let ghost whole = recorded(entries@, entries@.len());
    let mut i: usize = entries.len();
    while i > 0
        invariant
            i <= entries.len(),
            whole == recorded(entries@, entries@.len()),
            whole.dom().contains(name@) == recorded(entries@, i as nat).dom().contains(name@),
            whole.dom().contains(name@) ==> whole[name@] == recorded(entries@, i as nat)[name@],
        decreases i,
    {
        i -= 1;
        assert(recorded(entries@, (i + 1) as nat) == recorded(entries@, i as nat).insert(
            entries@[i as int].0@,
            entries@[i as int].1,
        ));
        if entries[i].0 == *name {
            return Some(entries[i].1);
        }
    }
    None
}

/// Whether everything that the table `a` records, the table `b` records too,
/// and with the same value.
fn covered(a: &Vec<(String, u8)>, b: &Vec<(String, u8)>) -> (all: bool)
    ensures
        all == recorded(a@, a@.len()).submap_of(recorded(b@, b@.len())),
{
    let ghost ours = recorded(a@, a@.len());
    let ghost theirs = recorded(b@, b@.len());
    proof {
        lemma_recorded_names(a@, a@.len());
    }
    let mut i: usize = 0;
    while i < a.len()
        invariant
            i <= a.len(),
            ours == recorded(a@, a@.len()),
            theirs == recorded(b@, b@.len()),
            forall|name: Seq<char>| #[trigger]
                ours.dom().contains(name) <==> exists|k: int|
                    0 <= k < a@.len() && (#[trigger] a@[k]).0@ == name,
            forall|k: int|
                0 <= k < i ==> theirs.dom().contains((#[trigger] a@[k]).0@) && theirs[a@[k].0@]
                    == ours[a@[k].0@],
        decreases a.len() - i,
    {
        let here = lookup(a, &a[i].0);
        let there = lookup(b, &a[i].0);
        assert(ours.dom().contains(a@[i as int].0@));
        let same = match (here, there) {
            (Some(x), Some(y)) => x == y,
            _ => false,
        };
        if !same {
            return false;
        }
        i += 1;
    }
    proof {
        assert forall|name: Seq<char>| ours.dom().contains(name) implies #[trigger]
            theirs.dom().contains(name) && ours[name] == theirs[name] by {
            let k = choose|k: int| 0 <= k < a@.len() && (#[trigger] a@[k]).0@ == name;
            assert(theirs.dom().contains(a@[k].0@));
        }
    }
    true
}

impl PartialEq for Tips {
    /// Two tables are equal when they record the same value for the same
    /// names, in whatever order the values came in.
    fn eq(&self, other: &Self) -> (equal: bool) {
        let equal = covered(&self.entries, &other.entries) && covered(
            &other.entries,
            &self.entries,
        );
        proof {
            if equal {
                assert forall|name: Seq<char>|
                    self@.dom().contains(name) <==> other@.dom().contains(name) by {
                    assert(self@.dom().contains(name) ==> other@.dom().contains(name));
                    assert(other@.dom().contains(name) ==> self@.dom().contains(name));
                }
                assert(self@ =~= other@);
            }
        }
        equal
    }
}

impl PartialEqSpecImpl for Tips {
    open spec fn obeys_eq_spec() -> bool {
        true
    }

    open spec fn eq_spec(&self, other: &Self) -> bool {
        self@ == other@
    }
}

impl Eq for Tips {

}

impl Clone for Tips {
    fn clone(&self) -> (copy: Self)
        ensures
            copy@ == self@,
            self.wf() ==> copy.wf(),
    {
        let mut entries: Vec<(String, u8)> = Vec::new();
        let mut i: usize = 0;
        while i < self.entries.len()
            invariant
                i <= self.entries.len(),
                entries@.len() == i,
                forall|j: int| 0 <= j < i ==> (#[trigger] entries@[j]) == self.entries@[j],
            decreases self.entries.len() - i,
        {
            entries.push((self.entries[i].0.clone(), self.entries[i].1));
            i += 1;
        }
        assert(entries@ =~= self.entries@);
        Tips { entries }
    }
}

impl Tips {
    /// The table's internal consistency: no name is held twice. Every table
    /// that this module hands out is well formed.
    pub closed spec fn wf(&self) -> bool {
        distinct(self.entries@)
    }

    /// The model of every table is a finite map.
    pub proof fn lemma_finite(self)
        ensures
            self@.dom().finite(),
    {
        lemma_recorded_names(self.entries@, self.entries@.len());
    }

    /// An empty table.
    pub fn new() -> (tips: Self)
        ensures
            tips.wf(),
            tips@ == Map::<Seq<char>, u8>::empty(),
    {
        Self { entries: Vec::new() }
    }

    /// Records `tip` for `player`, replacing what was recorded for a player
    /// of that name before.
    pub fn add_tip(&mut self, player: &Player, tip: u8)
        requires
            old(self).wf(),
        ensures
            final(self).wf(),
            final(self)@ == old(self)@.insert(player@.name, tip),
    {
        let name = player.name();
        let mut i: usize = 0;
        while i < self.entries.len()
            invariant
                i <= self.entries.len(),
                *self == *old(self),
                distinct(self.entries@),
                name@ == player@.name,
                forall|j: int| 0 <= j < i ==> (#[trigger] self.entries[j]).0@ != name@,
            decreases self.entries.len() - i,
        {
            if self.entries[i].0 == *name {
                proof {
                    lemma_recorded_update(self.entries@, i as int, tip);
                }
                self.entries[i].1 = tip;
                assert(self.entries@ =~= old(self).entries@.update(
                    i as int,
                    (old(self).entries[i as int].0, tip),
                ));
                return ;
            }
            i += 1;
        }
        let ghost before = self.entries@;
        let owned = name.clone();
        self.entries.push((owned, tip));
        proof {
            let after = self.entries@;
            lemma_recorded_agree(before, after, before.len());
            assert(distinct(after)) by {
                assert forall|a: int, b: int| 0 <= a < b < after.len() implies (#[trigger] after[a]).0@
                    != (#[trigger] after[b]).0@ by {
                    if b < before.len() {
                        assert(after[a] == before[a]);
                        assert(after[b] == before[b]);
                    } else {
                        assert(after[a] == before[a]);
                    }
                }
            }
        }
    }

    /// The number recorded for `player`, or zero where none is.
    pub fn get_tip(&self, player: &Player) -> (tip: u8)
        ensures
            tip == tip_of(self@, player@.name),
    {
        match lookup(&self.entries, player.name()) {
            Some(tip) => tip,
            None => 0,
        }
    }

    /// The sum of all recorded numbers, or `None` where it does not fit the
    /// result type.
    pub fn checked_sum(&self) -> (sum: Option<u32>)
        requires
            self.wf(),
        ensures
            sum == if total(self@) <= u32::MAX {
                Some(total(self@) as u32)
            } else {
                None
            },
    {
        let mut sum: u32 = 0;
        let mut i: usize = 0;
        while i < self.entries.len()
            invariant
                i <= self.entries.len(),
                distinct(self.entries@),
                sum == total(recorded(self.entries@, i as nat)),
            decreases self.entries.len() - i,
        {
            proof {
                lemma_recorded_total(self.entries@, i as nat);
            }
            match sum.checked_add(self.entries[i].1 as u32) {
                Some(next) => {
                    sum = next;
                },
                None => {
                    proof {
                        if i + 1 < self.entries.len() {
                            lemma_recorded_total(self.entries@, (i + 1) as nat);
                        }
                    }
                    return None;
                },
            }
            i += 1;
        }
        Some(sum)
    }

    /// The sum of all recorded numbers.
    pub fn sum(&self) -> (sum: u32)
        requires
            self.wf(),
            total(self@) <= u32::MAX,
        ensures
            sum == total(self@),
    {
        match self.checked_sum() {
            Some(sum) => sum,
            None => 0,
        }
    }
}

} // verus!
