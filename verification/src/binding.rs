//! A binding: one subdirectory of the binding root, with the text of the
//! files found in it.

use vstd::prelude::*;

verus! {

/// The texts of a sequence of strings, in order.
pub open spec fn texts(strings: Seq<String>) -> Seq<Seq<char>> {
    Seq::new(strings.len(), |i: int| strings[i]@)
}

/// What a binding is: its name, and its properties keyed by file name.
pub struct BindingView {
    pub name: Seq<char>,
    pub info: Map<Seq<char>, Seq<char>>,
}

/// The mapping that lists `keys[i] -> values[i]` for every `i`.
pub open spec fn pairing(keys: Seq<Seq<char>>, values: Seq<Seq<char>>) -> Map<
    Seq<char>,
    Seq<char>,
> {
    Map::new(|k: Seq<char>| keys.contains(k), |k: Seq<char>| values[keys.index_of(k)])
}

/// One subdirectory of the binding root. The properties are kept in the
/// order in which they were first inserted; no key occurs twice.
#[derive(Debug)]
pub struct Binding {
    name: String,
    keys: Vec<String>,
    values: Vec<String>,
}

impl View for Binding {
    type V = BindingView;

    closed spec fn view(&self) -> BindingView {
        BindingView { name: self.name@, info: pairing(texts(self.keys@), texts(self.values@)) }
    }
}

impl Binding {
    /// Every key has its value, and no key occurs twice.
    pub closed spec fn wf(&self) -> bool {
        &&& self.keys@.len() == self.values@.len()
        &&& texts(self.keys@).no_duplicates()
    }

    /// The keys in order of first insertion.
    pub closed spec fn key_order(&self) -> Seq<Seq<char>> {
        texts(self.keys@)
    }

    /// In a well-formed binding the keys in order are exactly the domain of
    /// the mapping, each once.
    pub proof fn lemma_key_order(&self)
        requires
            self.wf(),
        ensures
            self.key_order().no_duplicates(),
            forall|k: Seq<char>| self.key_order().contains(k) <==> self@.info.dom().contains(k),
    {
    }

    /// A binding with the given name and no properties.
    pub fn new(name: String) -> (binding: Binding)
        ensures
            binding.wf(),
            binding@.name == name@,
            binding@.info == Map::<Seq<char>, Seq<char>>::empty(),
            binding.key_order() == Seq::<Seq<char>>::empty(),
    {
        let binding = Binding { name, keys: Vec::new(), values: Vec::new() };
        assert(binding@.info =~= Map::<Seq<char>, Seq<char>>::empty());
        assert(binding.key_order() =~= Seq::<Seq<char>>::empty());
        binding
    }

    /// The name of the subdirectory.
    pub fn name(&self) -> (name: &String)
        ensures
            name@ == self@.name,
    {
        &self.name
    }

    /// The number of properties.
    pub fn len(&self) -> (n: usize)
        requires
            self.wf(),
        ensures
            n == self.key_order().len(),
            n == self@.info.dom().len(),
            self@.info.dom().finite(),
    {
        proof {
            self.lemma_domain();
        }
        self.keys.len()
    }

    /// The key of the `i`-th property in order of first insertion.
    pub fn key_at(&self, i: usize) -> (key: &String)
        requires
            self.wf(),
            i < self.key_order().len(),
        ensures
            key@ == self.key_order()[i as int],
    {
        &self.keys[i]
    }

    /// The value of the `i`-th property in order of first insertion.
    pub fn value_at(&self, i: usize) -> (value: &String)
        requires
            self.wf(),
            i < self.key_order().len(),
        ensures
            self@.info.contains_key(self.key_order()[i as int]),
            value@ == self@.info[self.key_order()[i as int]],
    {
        proof {
            let keys = texts(self.keys@);
            assert(keys[i as int] == self.keys@[i as int]@);
            assert(keys.contains(keys[i as int]));
            assert(keys.index_of(keys[i as int]) == i as int);
        }
        &self.values[i]
    }

    /// Where `key` stands among the keys, if it does.
    fn position(&self, key: &String) -> (found: Option<usize>)
        requires
            self.wf(),
        ensures
            match found {
                Some(i) => i < self.keys@.len() && self.keys@[i as int]@ == key@,
                None => !texts(self.keys@).contains(key@),
            },
    {
        let mut i: usize = 0;
        while i < self.keys.len()
            invariant
                i <= self.keys@.len(),
                forall|j: int| 0 <= j < i ==> self.keys@[j]@ != key@,
            decreases self.keys@.len() - i,
        {
            if self.keys[i] == *key {
                return Some(i);
            }
            i = i + 1;
        }
        assert(!texts(self.keys@).contains(key@)) by {
            if texts(self.keys@).contains(key@) {
                let j = texts(self.keys@).index_of(key@);
                assert(self.keys@[j]@ == key@);
            }
        }
        None
    }

    /// The text stored under `key`, if any.
    pub fn get(&self, key: &String) -> (value: Option<&String>)
        requires
            self.wf(),
        ensures
            match value {
                Some(text) => self@.info.contains_key(key@) && text@ == self@.info[key@],
                None => !self@.info.contains_key(key@),
            },
    {
        match self.position(key) {
            Some(i) => {
                proof {
                    let keys = texts(self.keys@);
                    assert(keys[i as int] == key@);
                    assert(keys.contains(key@));
                    assert(keys.index_of(key@) == i as int);
                }
                Some(&self.values[i])
            },
            None => None,
        }
    }

    /// Stores `value` under `key`, in place of what was stored under it
    /// before. A new key goes to the end of the order; a known key keeps
    /// its place.
    pub fn insert(&mut self, key: String, value: String)
        requires
            old(self).wf(),
        ensures
            final(self).wf(),
            final(self)@.name == old(self)@.name,
            final(self)@.info == old(self)@.info.insert(key@, value@),
            final(self).key_order() == if old(self)@.info.contains_key(key@) {
                old(self).key_order()
            } else {
                old(self).key_order().push(key@)
            },
    {
        let ghost keys0 = texts(self.keys@);
        let ghost values0 = texts(self.values@);
        match self.position(&key) {
            Some(i) => {
                self.values.set(i, value);
                proof {
                    let values1 = texts(self.values@);
                    assert(keys0[i as int] == key@);
                    assert(keys0.contains(key@));
                    assert(keys0.index_of(key@) == i as int);
                    assert(values1 =~= values0.update(i as int, value@));
                    assert forall|k: Seq<char>| keys0.contains(k) implies #[trigger] pairing(
                        keys0,
                        values1,
                    )[k] == pairing(keys0, values0).insert(key@, value@)[k] by {
                        let j = keys0.index_of(k);
                        if k != key@ {
                            assert(j != i as int);
                        }
                    }
                    assert(pairing(keys0, values1) =~= pairing(keys0, values0).insert(
                        key@,
                        value@,
                    ));
                }
            },
            None => {
                self.keys.push(key);
                self.values.push(value);
                proof {
                    let keys1 = texts(self.keys@);
                    let values1 = texts(self.values@);
                    let n = keys0.len() as int;
                    assert(keys1 =~= keys0.push(key@));
                    assert(values1 =~= values0.push(value@));
                    assert(keys1.no_duplicates());
                    assert forall|k: Seq<char>| keys1.contains(k) <==> (keys0.contains(k) || k
                        == key@) by {
                        if keys1.contains(k) {
                            let j = keys1.index_of(k);
                            if j < n {
                                assert(keys0[j] == k);
                            }
                        }
                        if keys0.contains(k) {
                            let j = keys0.index_of(k);
                            assert(keys1[j] == k);
                        }
                        if k == key@ {
                            assert(keys1[n] == k);
                        }
                    }
                    assert forall|k: Seq<char>| keys1.contains(k) implies #[trigger] pairing(
                        keys1,
                        values1,
                    )[k] == pairing(keys0, values0).insert(key@, value@)[k] by {
                        let j = keys1.index_of(k);
                        if k == key@ {
                            assert(keys1[n] == k);
                            assert(j == n);
                        } else {
                            assert(j < n);
                            assert(keys0[j] == k);
                            assert(keys0.contains(k));
                            assert(keys0.index_of(k) == j);
                        }
                    }
                    assert(pairing(keys1, values1) =~= pairing(keys0, values0).insert(
                        key@,
                        value@,
                    ));
                }
            },
        }
    }

    /// The domain of the mapping is finite and as large as the key order.
    proof fn lemma_domain(&self)
        requires
            self.wf(),
        ensures
            self@.info.dom().finite(),
            self@.info.dom().len() == self.keys@.len(),
    {
        let keys = texts(self.keys@);
        keys.unique_seq_to_set();
        assert(self@.info.dom() =~= keys.to_set());
    }
}

} // verus!
