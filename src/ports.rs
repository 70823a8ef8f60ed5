use vstd::prelude::*;

use crate::vectors::{coord_ok, Vector3};

verus! {

/// The port table as plain values: each port identifier with the positions
/// of its bits, in order of first registration.
pub type PortEntries = Seq<(Seq<char>, Seq<Vector3>)>;

/// Index of the entry for `id`, or -1.
pub open spec fn key_index(tab: PortEntries, id: Seq<char>) -> int {
    if exists|i: int| 0 <= i < tab.len() && #[trigger] tab[i].0 == id {
        choose|i: int| 0 <= i < tab.len() && #[trigger] tab[i].0 == id
    } else {
        -1
    }
}

/// The positions registered for `id`.
pub open spec fn lookup(tab: PortEntries, id: Seq<char>) -> Option<Seq<Vector3>> {
    if key_index(tab, id) >= 0 {
        Some(tab[key_index(tab, id)].1)
    } else {
        None
    }
}

pub open spec fn keys_unique(tab: PortEntries) -> bool {
    forall|i: int, j: int| 0 <= i < j < tab.len() ==> tab[i].0 != tab[j].0
}

/// Every registered position is small enough for routing arithmetic.
pub open spec fn positions_ok(tab: PortEntries) -> bool {
    forall|i: int, j: int|
        0 <= i < tab.len() && 0 <= j < tab[i].1.len() ==> coord_ok(#[trigger] tab[i].1[j])
}

/// The placeholder of a bit whose position has not been registered.
pub open spec fn placeholder() -> Vector3 {
    Vector3(0, 0, 0)
}

/// Records that bit `bit` of port `id` (of width `size`) ends at `pos`. A
/// port seen for the first time gets `size` placeholder positions. `None`
/// when the bit is beyond the port's list.
pub open spec fn record_spec(
    tab: PortEntries,
    id: Seq<char>,
    size: nat,
    bit: nat,
    pos: Vector3,
) -> Option<PortEntries> {
    let t1 = if key_index(tab, id) >= 0 {
        tab
    } else {
        tab.push((id, Seq::new(size, |_i: int| placeholder())))
    };
    let k = key_index(t1, id);
    if bit < t1[k].1.len() {
        Some(t1.update(k, (id, t1[k].1.update(bit as int, pos))))
    } else {
        None
    }
}

/// Every voxel that ends some bit of some port.
pub open spec fn port_voxels(tab: PortEntries) -> Set<Vector3> {
    Set::new(
        |v: Vector3|
            exists|i: int, j: int|
                0 <= i < tab.len() && 0 <= j < tab[i].1.len() && #[trigger] tab[i].1[j] == v,
    )
}

/// All registered positions, entry after entry.
pub open spec fn flat_positions(tab: PortEntries) -> Seq<Vector3>
    decreases tab.len(),
{
    if tab.len() == 0 {
        Seq::empty()
    } else {
        flat_positions(tab.drop_last()) + tab.last().1
    }
}

/// Port identifiers mapped to the positions of their bits.
pub struct PortTable {
    entries: Vec<(String, Vec<Vector3>)>,
}

impl View for PortTable {
    type V = PortEntries;

    closed spec fn view(&self) -> PortEntries {
        self.entries@.map_values(|e: (String, Vec<Vector3>)| (e.0@, e.1@))
    }
}

impl PortTable {
    /// Identifiers are unique and positions are in range.
    pub open spec fn wf(&self) -> bool {
        keys_unique(self@) && positions_ok(self@)
    }

    /// An empty table.
    pub fn new() -> (r: PortTable)
        ensures
            r@ == Seq::<(Seq<char>, Seq<Vector3>)>::empty(),
            r.wf(),
    {
        let r = PortTable { entries: Vec::new() };
        assert(r@ =~= Seq::<(Seq<char>, Seq<Vector3>)>::empty());
        r
    }

    /// Number of ports.
    pub fn len(&self) -> (r: usize)
        ensures
            r == self@.len(),
    {
        self.entries.len()
    }

    fn find(&self, id: &String) -> (r: Option<usize>)
        requires
            self.wf(),
        ensures
            r matches Some(i) ==> i < self@.len() && i == key_index(self@, id@),
            r is None ==> key_index(self@, id@) == -1,
    {
        let mut i: usize = 0;
        while i < self.entries.len()
            invariant
                0 <= i <= self@.len(),
                self@.len() == self.entries@.len(),
                keys_unique(self@),
                forall|k: int| 0 <= k < i ==> #[trigger] self@[k].0 != id@,
            decreases self.entries@.len() - i,
        {
            assert(self@[i as int].0 == self.entries@[i as int].0@);
            if self.entries[i].0 == *id {
                let ghost c = key_index(self@, id@);
                assert(self@[c].0 == id@);
                assert(c == i as int) by {
                    if c < i {
                        assert(self@[c].0 != id@);
                    } else if c > i {
                        assert(self@[i as int].0 != self@[c].0);
                    }
                }
                return Some(i);
            }
            i = i + 1;
        }
        None
    }

    /// The positions of the bits of port `id`.
    pub fn get(&self, id: &String) -> (r: Option<&Vec<Vector3>>)
        requires
            self.wf(),
        ensures
            r matches Some(v) ==> lookup(self@, id@) == Some(v@),
            r is None ==> lookup(self@, id@) is None,
    {
        match self.find(id) {
            Some(i) => Some(&self.entries[i].1),
            None => None,
        }
    }

    /// The positions of entry `i`.
    pub fn positions_at(&self, i: usize) -> (r: &Vec<Vector3>)
        requires
            i < self@.len(),
        ensures
            r@ == self@[i as int].1,
    {
        &self.entries[i].1
    }

    /// Every registered position, entry after entry.
    pub fn positions(&self) -> (r: Vec<Vector3>)
        requires
            self.wf(),
        ensures
            r@ == flat_positions(self@),
            crate::vectors::all_coord_ok(r@),
    {
        let mut out: Vec<Vector3> = Vec::new();
        let mut e: usize = 0;
        while e < self.entries.len()
            invariant
                0 <= e <= self@.len(),
                self@.len() == self.entries@.len(),
                self.wf(),
                out@ == flat_positions(self@.subrange(0, e as int)),
                crate::vectors::all_coord_ok(out@),
            decreases self@.len() - e,
        {
            let list = &self.entries[e].1;
            assert(list@ == self@[e as int].1);
            let ghost base = out@;
            let mut j: usize = 0;
            while j < list.len()
                invariant
                    0 <= e < self@.len(),
                    0 <= j <= list@.len(),
                    list@ == self@[e as int].1,
                    self.wf(),
                    out@ == base + list@.subrange(0, j as int),
                    crate::vectors::all_coord_ok(base),
                decreases list@.len() - j,
            {
                out.push(list[j]);
                assert(out@ =~= base + list@.subrange(0, j as int + 1));
                j = j + 1;
            }
            assert(list@.subrange(0, list@.len() as int) =~= list@);
            assert(self@.subrange(0, e as int + 1).drop_last() =~= self@.subrange(0, e as int));
            assert(crate::vectors::all_coord_ok(out@)) by {
                assert forall|k: int| 0 <= k < out@.len() implies coord_ok(#[trigger] out@[k]) by {
                    if k >= base.len() {
                        assert(out@[k] == self@[e as int].1[k - base.len()]);
                    }
                }
            }
            e = e + 1;
        }
        assert(self@.subrange(0, self@.len() as int) =~= self@);
        out
    }

    /// Records that bit `bit` of port `id` ends at `pos` (see `record_spec`);
    /// `false`, with the table unchanged, when the bit is out of range.
    pub fn record(&mut self, id: &String, size: u8, bit: usize, pos: Vector3) -> (r: bool)
        requires
            old(self).wf(),
            coord_ok(pos),
        ensures
            final(self).wf(),
            r == record_spec(old(self)@, id@, size as nat, bit as nat, pos) is Some,
            r ==> Some(final(self)@) == record_spec(old(self)@, id@, size as nat, bit as nat, pos),
            !r ==> final(self)@ == old(self)@,
    {
        let ghost tab = self@;
        let ghost fresh = tab.push((id@, Seq::new(size as nat, |_i: int| placeholder())));
        let ghost t1 = if key_index(tab, id@) >= 0 {
            tab
        } else {
            fresh
        };
        proof {
            if key_index(tab, id@) < 0 {
                assert(fresh[fresh.len() - 1].0 == id@);
                let c = key_index(fresh, id@);
                if c != tab.len() {
                    assert(fresh[c] == tab[c]);
                    assert(tab[c].0 == id@);
                }
                assert(key_index(fresh, id@) == tab.len());
            }
        }
        let found = self.find(id);
        let k: usize;
        match found {
            Some(i) => {
                k = i;
            },
            None => {
                if bit >= size as usize {
                    return false;
                }
                let mut list: Vec<Vector3> = Vec::new();
                let mut n: usize = 0;
                while n < size as usize
                    invariant
                        n <= size,
                        list@ =~= Seq::new(n as nat, |_i: int| placeholder()),
                    decreases size - n,
                {
                    list.push(Vector3(0, 0, 0));
                    n = n + 1;
                }
                self.entries.push((id.clone(), list));
                assert(self@ =~= fresh);
                assert(keys_unique(self@)) by {
                    assert forall|i: int, j: int| 0 <= i < j < self@.len() implies self@[i].0
                        != self@[j].0 by {
                        if j == tab.len() {
                            assert(tab[i].0 != id@);
                        }
                    }
                }
                k = self.entries.len() - 1;
            },
        }
        assert(self@ == t1 && k == key_index(t1, id@));
        assert(keys_unique(self@) && positions_ok(self@));
        if bit >= self.entries[k].1.len() {
            assert(self@[k as int].1.len() == self.entries@[k as int].1@.len());
            return false;
        }
        let ghost before = self@;
        let (key, mut list) = self.entries.remove(k);
        list.set(bit, pos);
        self.entries.insert(k, (key, list));
        let ghost target = t1.update(k as int, (id@, t1[k as int].1.update(bit as int, pos)));
        assert(self@ =~= target);
        assert(keys_unique(self@)) by {
            assert forall|i: int, j: int| 0 <= i < j < self@.len() implies self@[i].0
                != self@[j].0 by {
                assert(self@[i].0 == before[i].0);
                assert(self@[j].0 == before[j].0);
            }
        }
        assert(positions_ok(self@)) by {
            assert forall|i: int, j: int|
                0 <= i < self@.len() && 0 <= j < self@[i].1.len() implies coord_ok(
                #[trigger] self@[i].1[j],
            ) by {
                if i != k || j != bit {
                    assert(self@[i].1[j] == before[i].1[j]);
                }
            }
        }
        true
    }
}

} // verus!
