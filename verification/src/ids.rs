//! Identifier table: maps names to stable numeric keys, starting at 1.

use vstd::prelude::*;

verus! {

/// Numeric key of an identifier (`LUintPtr` in the VM).
pub type LUintPtr = usize;

/// Assigns each distinct name a key: the first name gets 1, the next new one 2, and so on.
/// Key 0 never names anything.
pub struct IdCreator {
    names: Vec<String>,
}

/// No name occurs twice in the table.
pub open spec fn distinct_names(s: Seq<Seq<char>>) -> bool {
    forall|i: int, j: int| 0 <= i < j < s.len() ==> s[i] != s[j]
}

/// The table after registering `name` (see `IdCreator::gen_ident_by_str`).
pub open spec fn spec_register_one(ids: Seq<Seq<char>>, name: Seq<char>) -> Seq<Seq<char>> {
    if ids.contains(name) {
        ids
    } else {
        ids.push(name)
    }
}

/// The table after registering `names` in order.
pub open spec fn spec_register(ids: Seq<Seq<char>>, names: Seq<Seq<char>>) -> Seq<Seq<char>>
    decreases names.len(),
{
    if names.len() == 0 {
        ids
    } else {
        spec_register_one(spec_register(ids, names.drop_last()), names.last())
    }
}

/// Whether `k` is the key of `name` in the table `ids`.
pub open spec fn keyed(ids: Seq<Seq<char>>, k: usize, name: Seq<char>) -> bool {
    1 <= k <= ids.len() && ids[k - 1] == name
}

/// Registering names only adds to the end of the table.
pub proof fn lemma_register_prefix(ids: Seq<Seq<char>>, names: Seq<Seq<char>>)
    ensures
        ids.is_prefix_of(spec_register(ids, names)),
        spec_register(ids, names).len() <= ids.len() + names.len(),
    decreases names.len(),
{
    if names.len() > 0 {
        lemma_register_prefix(ids, names.drop_last());
    }
}

/// Registering a name twice gives the table that registering it once gives: a name keeps
/// its key.
pub proof fn lemma_register_idempotent(ids: Seq<Seq<char>>, name: Seq<char>)
    ensures
        spec_register_one(spec_register_one(ids, name), name) == spec_register_one(ids, name),
        spec_register_one(ids, name).contains(name),
{
    if !ids.contains(name) {
        assert(ids.push(name)[ids.len() as int] == name);
    }
}

/// In a table without repeats, a name has one key.
pub proof fn lemma_keyed_unique(ids: Seq<Seq<char>>, k: usize, j: int, name: Seq<char>)
    requires
        distinct_names(ids),
        keyed(ids, k, name),
        0 <= j < ids.len(),
        ids[j] == name,
    ensures
        k == j + 1,
{
    if k != j + 1 {
        if k - 1 < j {
            assert(ids[k - 1] != ids[j]);
        } else {
            assert(ids[j] != ids[k - 1]);
        }
    }
}

impl View for IdCreator {
    type V = Seq<Seq<char>>;

    /// The names in key order: `self@[k - 1]` is the name with key `k`.
    closed spec fn view(&self) -> Seq<Seq<char>> {
        self.names@.map_values(|s: String| s@)
    }
}

impl IdCreator {
    /// The table's invariant: names are distinct.
    #[verifier::type_invariant]
    pub open spec fn wf(&self) -> bool {
        distinct_names(self@)
    }

    /// An empty table.
    pub fn new() -> (r: Self)
        ensures
            r@ == Seq::<Seq<char>>::empty(),
            r.wf(),
    {
        let r = IdCreator { names: Vec::new() };
        proof {
            assert(r@ =~= Seq::<Seq<char>>::empty());
        }
        r
    }

    /// Number of names in the table.
    pub fn len(&self) -> (n: usize)
        ensures
            n == self@.len(),
    {
        self.names.len()
    }

    /// Key of `key`: its existing key when the table holds it, else a fresh key
    /// one past the last, after adding it.
    pub fn gen_ident_by_str(&mut self, key: &str) -> (id: LUintPtr)
        requires
            old(self).wf(),
            old(self)@.len() < usize::MAX,
        ensures
            final(self).wf(),
            1 <= id <= final(self)@.len(),
            final(self)@[id - 1] == key@,
            old(self)@.contains(key@) ==> final(self)@ == old(self)@,
            !old(self)@.contains(key@) ==> final(self)@ == old(self)@.push(key@) && id
                == old(self)@.len() + 1,
    {
        let k = key.to_owned();
        let n = self.names.len();
        let mut i: usize = 0;
        while i < n
            invariant
                n == self.names@.len(),
                i <= n,
                forall|j: int| 0 <= j < i ==> self@[j] != key@,
                k@ == key@,
                self@ == old(self)@,
                self.wf(),
            decreases n - i,
        {
            if self.names[i] == k {
                proof {
                    assert(self@[i as int] == key@);
                    assert(old(self)@.contains(key@));
                }
                return i + 1;
            }
            i = i + 1;
        }
        let ghost old_view = self@;
        proof {
            assert(!old_view.contains(key@)) by {
                if old_view.contains(key@) {
                    let j = choose|j: int| 0 <= j < old_view.len() && old_view[j] == key@;
                    assert(self@[j] != key@);
                }
            }
        }
        let mut names: Vec<String> = Vec::new();
        std::mem::swap(&mut names, &mut self.names);
        names.push(k);
        proof {
            assert(names@.map_values(|s: String| s@) =~= old_view.push(key@));
        }
        self.names = names;
        proof {
            assert(self@ =~= old_view.push(key@));
        }
        n + 1
    }

    /// The name with key `id`, if any.
    pub fn name_for_ident(&self, id: LUintPtr) -> (r: Option<String>)
        ensures
            r is Some <==> 1 <= id <= self@.len(),
            r matches Some(s) ==> s@ == self@[id - 1],
    {
        if id >= 1 && id <= self.names.len() {
            Some(self.names[id - 1].clone())
        } else {
            None
        }
    }
}

} // verus!
