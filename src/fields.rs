use vstd::prelude::*;

verus! {

/// A name/value pair as the contracts see it.
pub type Entry = (Seq<char>, Seq<char>);

/// Whether no two entries share a name.
pub open spec fn names_distinct(s: Seq<Entry>) -> bool {
    forall|i: int, j: int| 0 <= i < s.len() && 0 <= j < s.len() && i != j ==> s[i].0 != s[j].0
}

/// Whether some entry is called `name`.
pub open spec fn has_name(s: Seq<Entry>, name: Seq<char>) -> bool {
    exists|i: int| 0 <= i < s.len() && s[i].0 == name
}

/// The value stored under `name`, if any.
pub open spec fn lookup(s: Seq<Entry>, name: Seq<char>) -> Option<Seq<char>> {
    if has_name(s, name) {
        Some(s[choose|i: int| 0 <= i < s.len() && s[i].0 == name].1)
    } else {
        None
    }
}

/// Setting `name` to `value`: an existing entry keeps its place and takes the
/// new value, a new name goes to the end.
pub open spec fn set_entry(s: Seq<Entry>, name: Seq<char>, value: Seq<char>) -> Seq<Entry> {
    if has_name(s, name) {
        s.update(choose|i: int| 0 <= i < s.len() && s[i].0 == name, (name, value))
    } else {
        s.push((name, value))
    }
}

/// The entries that setting each pair in turn produces, from no entries at all;
/// where a name comes twice the later value wins.
pub open spec fn from_pairs(pairs: Seq<Entry>) -> Seq<Entry>
    decreases pairs.len(),
{
    if pairs.len() == 0 {
        Seq::empty()
    } else {
        let rest = from_pairs(pairs.drop_last());
        set_entry(rest, pairs.last().0, pairs.last().1)
    }
}

/// Setting a name keeps the names distinct, and afterwards the name holds the value.
pub proof fn lemma_set_entry(s: Seq<Entry>, name: Seq<char>, value: Seq<char>)
    requires
        names_distinct(s),
    ensures
        names_distinct(set_entry(s, name, value)),
        lookup(set_entry(s, name, value), name) == Some(value),
        forall|n: Seq<char>| n != name ==> lookup(set_entry(s, name, value), n) == lookup(s, n),
{
    let t = set_entry(s, name, value);
    if has_name(s, name) {
        let k = choose|i: int| 0 <= i < s.len() && s[i].0 == name;
        assert(t[k].0 == name);
        assert forall|n: Seq<char>| n != name implies lookup(t, n) == lookup(s, n) by {
            if has_name(s, n) {
                let a = choose|i: int| 0 <= i < s.len() && s[i].0 == n;
                assert(t[a].0 == n);
                let b = choose|i: int| 0 <= i < t.len() && t[i].0 == n;
                assert(b == a);
            } else {
                if has_name(t, n) {
                    let b = choose|i: int| 0 <= i < t.len() && t[i].0 == n;
                    assert(s[b].0 == n);
                }
            }
        }
    } else {
        assert(t[s.len() as int].0 == name);
        assert forall|n: Seq<char>| n != name implies lookup(t, n) == lookup(s, n) by {
            if has_name(s, n) {
                let a = choose|i: int| 0 <= i < s.len() && s[i].0 == n;
                assert(t[a].0 == n);
                let b = choose|i: int| 0 <= i < t.len() && t[i].0 == n;
                assert(b == a);
            } else {
                if has_name(t, n) {
                    let b = choose|i: int| 0 <= i < t.len() && t[i].0 == n;
                    assert(s[b].0 == n);
                }
            }
        }
    }
}

/// A small string map that keeps its entries in the order their names were
/// first set; it backs request queries and headers and response headers.
#[derive(Debug, PartialEq)]
pub struct Fields {
    entries: Vec<(String, String)>,
}

impl View for Fields {
    type V = Seq<Entry>;

    closed spec fn view(&self) -> Seq<Entry> {
        self.entries@.map_values(|e: (String, String)| (e.0@, e.1@))
    }
}

impl Fields {
    /// No name occurs twice.
    #[verifier::type_invariant]
    spec fn names_unique(&self) -> bool {
        names_distinct(self@)
    }

    /// A map with no entries.
    pub fn new() -> (r: Fields)
        ensures
            r@ == Seq::<Entry>::empty(),
    {
        Fields { entries: Vec::new() }
    }

    /// The number of entries.
    pub fn len(&self) -> (r: usize)
        ensures
            r == self@.len(),
    {
        self.entries.len()
    }

    /// The entry at position `i`, in order of first insertion.
    pub fn entry(&self, i: usize) -> (r: (&String, &String))
        requires
            i < self@.len(),
        ensures
            r.0@ == self@[i as int].0,
            r.1@ == self@[i as int].1,
    {
        let e = &self.entries[i];
        (&e.0, &e.1)
    }

    /// The position of `name`, if present.
    fn position(&self, name: &str) -> (r: Option<usize>)
        ensures
            match r {
                Some(i) => i < self@.len() && self@[i as int].0 == name@,
                None => !has_name(self@, name@),
            },
    {
        let key = String::from_str(name);
        let mut i: usize = 0;
        while i < self.entries.len()
            invariant
                i <= self.entries@.len(),
                key@ == name@,
                forall|j: int| 0 <= j < i ==> self@[j].0 != name@,
            decreases self.entries@.len() - i,
        {
            assert(self@[i as int].0 == self.entries@[i as int].0@);
            if self.entries[i].0 == key {
                return Some(i);
            }
            i = i + 1;
        }
        None
    }

    /// The value stored under `name`.
    pub fn get(&self, name: &str) -> (r: Option<&String>)
        ensures
            match r {
                Some(v) => lookup(self@, name@) == Some(v@),
                None => lookup(self@, name@) is None,
            },
    {
        proof {
            use_type_invariant(self);
        }
        match self.position(name) {
            Some(i) => {
                proof {
                    let k = choose|j: int| 0 <= j < self@.len() && self@[j].0 == name@;
                    assert(k == i);
                }
                Some(&self.entries[i].1)
            },
            None => None,
        }
    }

    /// Whether `name` is present.
    pub fn contains_key(&self, name: &str) -> (r: bool)
        ensures
            r == has_name(self@, name@),
    {
        self.position(name).is_some()
    }

    /// A copy that owns its own strings.
    pub fn duplicate(&self) -> (r: Fields)
        ensures
            r@ == self@,
    {
        proof {
            use_type_invariant(self);
        }
        let mut copy = Fields::new();
        let mut i: usize = 0;
        while i < self.entries.len()
            invariant
                i <= self@.len(),
                names_distinct(self@),
                copy@ == self@.subrange(0, i as int),
            decreases self@.len() - i,
        {
            let (n, v) = self.entry(i);
            proof {
                let h = self@;
                assert(!has_name(h.subrange(0, i as int), n@)) by {
                    if has_name(h.subrange(0, i as int), n@) {
                        let k = choose|j: int| 0 <= j < i && h.subrange(0, i as int)[j].0 == n@;
                        assert(h[k].0 == h[i as int].0);
                    }
                }
                assert(h.subrange(0, i + 1) =~= h.subrange(0, i as int).push(h[i as int]));
            }
            copy.insert(n.clone(), v.clone());
            i = i + 1;
        }
        proof {
            assert(self@.subrange(0, self@.len() as int) =~= self@);
        }
        copy
    }

    /// Sets `name` to `value`, replacing an earlier value of the same name.
    pub fn insert(&mut self, name: String, value: String)
        ensures
            final(self)@ == set_entry(old(self)@, name@, value@),
    {
        proof {
            use_type_invariant(&*self);
            lemma_set_entry(self@, name@, value@);
        }
        let ghost before = self@;
        let found = self.position(name.as_str());
        let mut entries: Vec<(String, String)> = Vec::new();
        std::mem::swap(&mut entries, &mut self.entries);
        let ghost view = |es: Seq<(String, String)>| es.map_values(|e: (String, String)| (e.0@, e.1@));
        assert(view(entries@) == before);
        match found {
            Some(i) => {
                proof {
                    let k = choose|j: int| 0 <= j < before.len() && before[j].0 == name@;
                    assert(k == i);
                }
                entries.set(i, (name, value));
            },
            None => {
                entries.push((name, value));
            },
        }
        assert(view(entries@) =~= set_entry(before, name@, value@));
        self.entries = entries;
    }
}

impl Clone for Fields {
    fn clone(&self) -> (r: Fields)
        ensures
            r@ == self@,
    {
        self.duplicate()
    }
}

} // verus!
