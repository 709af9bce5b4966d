//! The set of device keys to which the layout has been sent.

use vstd::prelude::*;

verus! {

/// The views of a sequence of strings.
pub open spec fn key_views(keys: Seq<String>) -> Seq<Seq<char>> {
    keys.map_values(|s: String| s@)
}

/// Keys of the devices that have had the layout command issued since they
/// last appeared. No key is stored twice.
pub struct AppliedKeys {
    keys: Vec<String>,
}

impl View for AppliedKeys {
    type V = Set<Seq<char>>;

    closed spec fn view(&self) -> Set<Seq<char>> {
        key_views(self.keys@).to_set()
    }
}

/// Whether `key` is among `keys`.
fn vec_contains(keys: &Vec<String>, key: &String) -> (r: bool)
    ensures
        r == key_views(keys@).contains(key@),
{
    let mut i: usize = 0;
    while i < keys.len()
        invariant
            i <= keys.len(),
            forall|j: int| 0 <= j < i ==> keys@[j]@ != key@,
        decreases keys.len() - i,
    {
        if keys[i] == *key {
            assert(key_views(keys@)[i as int] == key@);
            return true;
        }
        i = i + 1;
    }
    false
}

/// Appends `key` unless it is already there.
fn push_unique(keys: &mut Vec<String>, key: String)
    requires
        key_views(old(keys)@).no_duplicates(),
    ensures
        key_views(final(keys)@).no_duplicates(),
        key_views(final(keys)@).to_set() == key_views(old(keys)@).to_set().insert(key@),
{
    if !vec_contains(keys, &key) {
        let ghost k = key@;
        keys.push(key);
        assert(key_views(keys@) =~= key_views(old(keys)@) + seq![k]);
        proof {
            Seq::lemma_to_set_insert_commutes(key_views(old(keys)@), k);
        }
    } else {
        assert(key_views(keys@).to_set() =~= key_views(keys@).to_set().insert(key@));
    }
}

impl AppliedKeys {
    /// No key is stored twice.
    pub closed spec fn wf(&self) -> bool {
        key_views(self.keys@).no_duplicates()
    }

    /// An empty set: nothing applied yet.
    pub fn new() -> (r: Self)
        ensures
            r.wf(),
            r@ == Set::<Seq<char>>::empty(),
    {
        let r = AppliedKeys { keys: Vec::new() };
        assert(r@ =~= Set::<Seq<char>>::empty());
        r
    }

    /// Number of keys held.
    pub fn len(&self) -> (n: usize)
        requires
            self.wf(),
        ensures
            n == self@.len(),
    {
        proof {
            key_views(self.keys@).unique_seq_to_set();
        }
        self.keys.len()
    }

    /// Whether `key` is held.
    pub fn contains(&self, key: &String) -> (r: bool)
        ensures
            r == self@.contains(key@),
    {
        vec_contains(&self.keys, key)
    }

    /// Adds `key`.
    pub fn insert(&mut self, key: String)
        requires
            old(self).wf(),
        ensures
            final(self).wf(),
            final(self)@ == old(self)@.insert(key@),
    {
        push_unique(&mut self.keys, key);
    }

    /// Keeps only the keys that are among `present`.
    pub fn retain_present(&mut self, present: &Vec<String>)
        requires
            old(self).wf(),
        ensures
            final(self).wf(),
            final(self)@ == old(self)@.intersect(key_views(present@).to_set()),
    {
        let ghost p = key_views(present@).to_set();
        let ghost old_keys = key_views(self.keys@);
        let mut kept: Vec<String> = Vec::new();
        let mut i: usize = 0;
        while i < self.keys.len()
            invariant
                i <= self.keys.len(),
                old_keys == key_views(self.keys@),
                p == key_views(present@).to_set(),
                key_views(kept@).no_duplicates(),
                key_views(kept@).to_set() == old_keys.take(i as int).to_set().intersect(p),
            decreases self.keys.len() - i,
        {
            let k = self.keys[i].clone();
            assert(old_keys.take(i + 1) =~= old_keys.take(i as int) + seq![k@]);
            proof {
                Seq::lemma_to_set_insert_commutes(old_keys.take(i as int), k@);
            }
            if vec_contains(present, &k) {
                push_unique(&mut kept, k);
                assert(key_views(kept@).to_set() =~= old_keys.take(i + 1).to_set().intersect(p));
            } else {
                assert(key_views(kept@).to_set() =~= old_keys.take(i + 1).to_set().intersect(p));
            }
            i = i + 1;
        }
        assert(old_keys.take(i as int) =~= old_keys);
        self.keys = kept;
    }
}

} // verus!
