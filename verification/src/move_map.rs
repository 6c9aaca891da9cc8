use vstd::prelude::*;
use crate::position::{contains_position, copy_positions, Position};

verus! {

/// The squares that the piece on one square may go to.
#[derive(Debug)]
pub struct MoveEntry {
    pub origin: Position,
    pub targets: Vec<Position>,
}

/// The map that a list of entries stands for: each origin with the targets of the last entry
/// that names it.
pub open spec fn entries_map(entries: Seq<MoveEntry>) -> Map<Position, Seq<Position>>
    decreases entries.len(),
{
    if entries.len() == 0 {
        Map::empty()
    } else {
        entries_map(entries.drop_last()).insert(entries.last().origin, entries.last().targets@)
    }
}

/// Whether no two entries of a list name one origin.
pub open spec fn origins_differ(entries: Seq<MoveEntry>) -> bool {
    forall|i: int, j: int| 0 <= i < j < entries.len() ==> entries[i].origin != entries[j].origin
}

/// Replacing the last entry of an origin gives the origin the new targets and leaves the
/// other origins what they had.
proof fn lemma_replace_entry(entries: Seq<MoveEntry>, at: int, entry: MoveEntry)
    requires
        0 <= at < entries.len(),
        entry.origin == entries[at].origin,
        forall|j: int| at < j < entries.len() ==> entries[j].origin != entry.origin,
    ensures
        entries_map(entries.update(at, entry)) == entries_map(entries).insert(entry.origin, entry.targets@),
    decreases entries.len(),
{
    let replaced = entries.update(at, entry);
    if at == entries.len() - 1 {
        assert(replaced.drop_last() =~= entries.drop_last());
        assert(entries_map(replaced) =~= entries_map(entries).insert(entry.origin, entry.targets@));
    } else {
        lemma_replace_entry(entries.drop_last(), at, entry);
        assert(replaced.drop_last() =~= entries.drop_last().update(at, entry));
        assert(replaced.last() == entries.last());
        assert(entries_map(replaced) =~= entries_map(entries).insert(entry.origin, entry.targets@));
    }
}

/// An origin that no entry names has no entry in the map.
proof fn lemma_absent_origin(entries: Seq<MoveEntry>, origin: Position)
    requires
        forall|j: int| 0 <= j < entries.len() ==> entries[j].origin != origin,
    ensures
        !entries_map(entries).contains_key(origin),
    decreases entries.len(),
{
    if entries.len() > 0 {
        lemma_absent_origin(entries.drop_last(), origin);
    }
}

/// A map from the squares of pieces to the squares they may go to. No square has two entries.
#[derive(Debug)]
pub struct MoveMap {
    entries: Vec<MoveEntry>,
}

impl View for MoveMap {
    type V = Map<Position, Seq<Position>>;

    closed spec fn view(&self) -> Map<Position, Seq<Position>> {
        entries_map(self.entries@)
    }
}

impl MoveMap {
    /// No square has two entries.
    #[verifier::type_invariant]
    spec fn each_origin_once(&self) -> bool {
        origins_differ(self.entries@)
    }

    /// A map without entries.
    pub fn new() -> (map: MoveMap)
        ensures
            map@ == Map::<Position, Seq<Position>>::empty(),
    {
        MoveMap { entries: Vec::new() }
    }

    /// The place of the entry of `origin` among the entries, if it has one.
    fn find(&self, origin: &Position) -> (place: Option<usize>)
        ensures
            match place {
                Some(at) => at < self.entries@.len() && self.entries@[at as int].origin == *origin,
                None => forall|j: int| 0 <= j < self.entries@.len() ==> self.entries@[j].origin != *origin,
            },
    {
        let mut i: usize = 0;
        while i < self.entries.len()
            invariant
                i <= self.entries.len(),
                forall|j: int| 0 <= j < i ==> self.entries@[j].origin != *origin,
            decreases self.entries.len() - i,
        {
            if self.entries[i].origin == *origin {
                return Some(i);
            }
            i += 1;
        }
        None
    }

    /// Gives `origin` the targets `targets`, in place of any it had.
    pub fn insert(&mut self, origin: Position, targets: Vec<Position>)
        ensures
            final(self)@ == old(self)@.insert(origin, targets@),
    {
        proof {
            use_type_invariant(&*self);
        }
        // A type with an invariant lends out no field mutably, so the new list is built beside
        // the map and put in its place: the entries of the other squares, then the new one.
        let mut entries: Vec<MoveEntry> = Vec::new();
        let mut i: usize = 0;
        assert(self.entries@.take(0) =~= entries@);
        assert(entries_map(entries@) =~= entries_map(self.entries@.take(0)).remove(origin));
        while i < self.entries.len()
            invariant
                i <= self.entries.len(),
                origins_differ(self.entries@),
                origins_differ(entries@),
                forall|j: int| 0 <= j < entries@.len() ==> entries@[j].origin != origin,
                forall|j: int|
                    0 <= j < entries@.len() ==> exists|k: int|
                        0 <= k < i && self.entries@[k].origin == #[trigger] entries@[j].origin,
                entries_map(entries@) == entries_map(self.entries@.take(i as int)).remove(origin),
            decreases self.entries.len() - i,
        {
            let entry = &self.entries[i];
            let ghost before = entries@;
            assert(self.entries@.take(i + 1).drop_last() =~= self.entries@.take(i as int));
            if entry.origin != origin {
                entries.push(MoveEntry { origin: entry.origin, targets: copy_positions(&entry.targets) });
                assert(entries@.drop_last() =~= before);
                assert(entries_map(entries@) =~= entries_map(self.entries@.take(i + 1)).remove(origin));
                assert forall|j: int| 0 <= j < entries@.len() implies exists|k: int|
                    0 <= k < i + 1 && self.entries@[k].origin == #[trigger] entries@[j].origin by {
                    if j < before.len() {
                        let k = choose|k: int| 0 <= k < i && self.entries@[k].origin == before[j].origin;
                        assert(self.entries@[k].origin == entries@[j].origin);
                    } else {
                        assert(self.entries@[i as int].origin == entries@[j].origin);
                    }
                }
                assert forall|a: int, b: int| 0 <= a < b < entries@.len() implies entries@[a].origin
                    != entries@[b].origin by {
                    if b == before.len() {
                        let k = choose|k: int| 0 <= k < i && self.entries@[k].origin == before[a].origin;
                        assert(self.entries@[k].origin != self.entries@[i as int].origin);
                    } else {
                        assert(before[a].origin != before[b].origin);
                    }
                }
            } else {
                assert(entries_map(entries@) =~= entries_map(self.entries@.take(i + 1)).remove(origin));
            }
            i += 1;
        }
        assert(self.entries@.take(i as int) =~= self.entries@);
        let ghost before = entries@;
        entries.push(MoveEntry { origin, targets });
        assert(entries@.drop_last() =~= before);
        assert(entries_map(entries@) =~= entries_map(self.entries@).insert(origin, targets@));
        assert forall|a: int, b: int| 0 <= a < b < entries@.len() implies entries@[a].origin
            != entries@[b].origin by {
            if b < before.len() {
                assert(before[a].origin != before[b].origin);
            }
        }
        self.entries = entries;
    }

    /// The targets of `origin`, if it has an entry.
    pub fn get(&self, origin: &Position) -> (targets: Option<&Vec<Position>>)
        ensures
            match targets {
                Some(found) => self@.contains_key(*origin) && self@[*origin] == found@,
                None => !self@.contains_key(*origin),
            },
    {
        proof {
            use_type_invariant(self);
        }
        match self.find(origin) {
            Some(at) => {
                proof {
                    let entry = self.entries@[at as int];
                    lemma_replace_entry(self.entries@, at as int, entry);
                    assert(self.entries@.update(at as int, entry) =~= self.entries@);
                }
                Some(&self.entries[at].targets)
            },
            None => {
                proof {
                    lemma_absent_origin(self.entries@, *origin);
                }
                None
            },
        }
    }

    /// Whether `origin` has an entry.
    pub fn contains_key(&self, origin: &Position) -> (found: bool)
        ensures
            found == self@.contains_key(*origin),
    {
        self.get(origin).is_some()
    }

    /// Whether `origin` has an entry with `target` among its targets.
    pub fn allows(&self, origin: &Position, target: &Position) -> (allowed: bool)
        ensures
            allowed == (self@.contains_key(*origin) && self@[*origin].contains(*target)),
    {
        match self.get(origin) {
            Some(targets) => contains_position(targets, target),
            None => false,
        }
    }

    /// A copy of the map.
    pub fn copy(&self) -> (copy: MoveMap)
        ensures
            copy@ == self@,
    {
        let entries = copy_entries(&self.entries);
        proof {
            use_type_invariant(self);
            lemma_same_entries(entries@, self.entries@);
        }
        MoveMap { entries }
    }
}

/// The entries of a list with the same origins and the same targets.
pub open spec fn copy_of(entries: Seq<MoveEntry>) -> Seq<(Position, Seq<Position>)> {
    Seq::new(entries.len(), |i: int| (entries[i].origin, entries[i].targets@))
}

/// Two lists of entries with the same origins and targets stand for the same map, and the
/// origins of the one differ just when those of the other do.
proof fn lemma_same_entries(first: Seq<MoveEntry>, second: Seq<MoveEntry>)
    requires
        copy_of(first) == copy_of(second),
    ensures
        entries_map(first) == entries_map(second),
        origins_differ(first) == origins_differ(second),
    decreases first.len(),
{
    assert(first.len() == copy_of(first).len());
    assert(second.len() == copy_of(second).len());
    assert forall|i: int| 0 <= i < first.len() implies first[i].origin == second[i].origin && first[i].targets@
        == second[i].targets@ by {
        assert(copy_of(first)[i] == copy_of(second)[i]);
    }
    if first.len() > 0 {
        assert(copy_of(first.drop_last()) =~= copy_of(second.drop_last()));
        lemma_same_entries(first.drop_last(), second.drop_last());
    }
}

/// A copy of a list of entries.
fn copy_entries(entries: &Vec<MoveEntry>) -> (copy: Vec<MoveEntry>)
    ensures
        copy_of(copy@) == copy_of(entries@),
{
    let mut copy: Vec<MoveEntry> = Vec::new();
    let mut i: usize = 0;
    while i < entries.len()
        invariant
            i <= entries.len(),
            copy@.len() == i,
            forall|j: int| 0 <= j < i ==> copy@[j].origin == entries@[j].origin && copy@[j].targets@
                == entries@[j].targets@,
        decreases entries.len() - i,
    {
        let entry = &entries[i];
        copy.push(MoveEntry { origin: entry.origin, targets: copy_positions(&entry.targets) });
        i += 1;
    }
    assert(copy_of(copy@) =~= copy_of(entries@));
    copy
}

} // verus!
