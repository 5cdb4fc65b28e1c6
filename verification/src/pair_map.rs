//! Numbers keyed by pairs of strings.

use vstd::prelude::*;
use vstd::hash_map::StringHashMap;

verus! {

/// A map from pairs of strings to numbers.
pub struct PairMap {
    rows: StringHashMap<usize>,
    columns: Vec<StringHashMap<u32>>,
}

impl PairMap {
    /// Every first string has a row of its own.
    pub closed spec fn wf(&self) -> bool {
        &&& forall|a: Seq<char>| #[trigger]
            self.rows@.contains_key(a) ==> self.rows@[a] < self.columns@.len()
        &&& forall|a: Seq<char>, b: Seq<char>|
            #![trigger self.rows@[a], self.rows@[b]]
            self.rows@.contains_key(a) && self.rows@.contains_key(b) && self.rows@[a]
                == self.rows@[b] ==> a == b
    }
}

impl View for PairMap {
    type V = Map<(Seq<char>, Seq<char>), u32>;

    closed spec fn view(&self) -> Map<(Seq<char>, Seq<char>), u32> {
        Map::new(
            |p: (Seq<char>, Seq<char>)|
                self.rows@.contains_key(p.0) && self.columns@[self.rows@[p.0] as int]@.contains_key(
                    p.1,
                ),
            |p: (Seq<char>, Seq<char>)| self.columns@[self.rows@[p.0] as int]@[p.1],
        )
    }
}

impl PairMap {
    /// An empty map.
    pub fn new() -> (map: Self)
        ensures
            map.wf(),
            map@ == Map::<(Seq<char>, Seq<char>), u32>::empty(),
    {
        let map = PairMap { rows: StringHashMap::new(), columns: Vec::new() };
        assert(map@ =~= Map::empty());
        map
    }

    /// The number under a pair.
    pub fn get(&self, first: &str, second: &str) -> (found: Option<u32>)
        requires
            self.wf(),
        ensures
            match found {
                Some(n) => self@.contains_key((first@, second@)) && n == self@[(first@, second@)],
                None => !self@.contains_key((first@, second@)),
            },
    {
        match self.rows.get(first) {
            None => None,
            Some(row) => match self.columns[*row].get(second) {
                None => None,
                Some(n) => Some(*n),
            },
        }
    }

    /// Puts `n` under a pair, in place of what stood there.
    pub fn insert(&mut self, first: String, second: String, n: u32)
        requires
            old(self).wf(),
        ensures
            final(self).wf(),
            final(self)@ == old(self)@.insert((first@, second@), n),
    {
        let ghost before = *self;
        let ghost a = first@;
        let ghost b = second@;
        let row: usize = match self.rows.get(first.as_str()) {
            Some(row) => *row,
            None => {
                let row: usize = self.columns.len();
                self.columns.push(StringHashMap::new());
                self.rows.insert(first, row);
                row
            },
        };
        let ghost middle = *self;
        self.columns[row].insert(second, n);
        proof {
            assert(middle.rows@[a] == row);
            assert(self.rows@ == middle.rows@);
            assert forall|p: (Seq<char>, Seq<char>)|
                self@.contains_key(p) == before@.insert((a, b), n).contains_key(p) && (
                self@.contains_key(p) ==> self@[p] == before@.insert((a, b), n)[p]) by {
                if self.rows@.contains_key(p.0) {
                    if p.0 == a {
                        assert(self.columns@[row as int]@ == middle.columns@[row as int]@.insert(
                            b,
                            n,
                        ));
                    } else {
                        assert(self.rows@[p.0] != self.rows@[a]);
                        assert(self.columns@[self.rows@[p.0] as int]
                            == before.columns@[before.rows@[p.0] as int]);
                    }
                }
            }
            assert(self@ =~= before@.insert((a, b), n));
        }
    }
}

} // verus!
