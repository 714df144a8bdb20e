//! String interning with dense ids.
use vstd::prelude::*;
use crate::plan::InternId;

verus! {

/// Interns strings: equal strings get equal ids, ids are dense in first-seen order.
pub struct StringInterner {
    strs_by_id: Vec<String>,
}

impl StringInterner {
    /// Interned strings, indexed by id.
    pub closed spec fn view(&self) -> Seq<Seq<char>> {
        Seq::new(self.strs_by_id@.len(), |i: int| self.strs_by_id@[i]@)
    }

    /// No string is interned twice, and every id fits in a `u32`.
    pub open spec fn wf(&self) -> bool {
        &&& self@.len() <= u32::MAX + 1
        &&& forall|i: int, j: int| 0 <= i < j < self@.len() ==> self@[i] != self@[j]
    }

    /// An empty interner.
    pub fn new() -> (r: Self)
        ensures
            r@ == Seq::<Seq<char>>::empty(),
            r.wf(),
    {
        let r = StringInterner { strs_by_id: Vec::new() };
        assert(r@ =~= Seq::<Seq<char>>::empty());
        r
    }

    /// Number of interned strings.
    pub fn len(&self) -> (r: usize)
        ensures
            r == self@.len(),
    {
        self.strs_by_id.len()
    }

    /// Id of `s`, if interned.
    pub fn lookup(&self, s: &str) -> (r: Option<InternId>)
        requires
            self.wf(),
        ensures
            r is Some <==> self@.contains(s@),
            r matches Some(id) ==> id.0 < self@.len() && self@[id.0 as int] == s@,
    {
        let key = String::from_str(s);
        let n = self.strs_by_id.len();
        let mut i: usize = 0;
        while i < n
            invariant
                n == self.strs_by_id@.len(),
                i <= n,
                key@ == s@,
                self.wf(),
                forall|j: int| 0 <= j < i ==> self@[j] != s@,
            decreases n - i,
        {
            if self.strs_by_id[i] == key {
                assert(self@[i as int] == s@);
                return Some(InternId(i as u32));
            }
            i = i + 1;
        }
        None
    }

    /// Id of `s`, interning it first if needed.
    pub fn intern(&mut self, s: &str) -> (id: InternId)
        requires
            old(self).wf(),
            old(self)@.contains(s@) || old(self)@.len() <= u32::MAX,
        ensures
            final(self).wf(),
            id.0 < final(self)@.len(),
            final(self)@[id.0 as int] == s@,
            old(self)@.contains(s@) ==> final(self)@ == old(self)@,
            !old(self)@.contains(s@) ==> final(self)@ == old(self)@.push(s@) && id.0 == old(self)@.len(),
    {
        match self.lookup(s) {
            Some(id) => id,
            None => {
                let id = InternId(self.strs_by_id.len() as u32);
                let ghost before = self@;
                self.strs_by_id.push(String::from_str(s));
                assert(self@ =~= before.push(s@));
                id
            },
        }
    }

    /// The string with id `id`.
    pub fn get(&self, id: InternId) -> (r: &str)
        requires
            id.0 < self@.len(),
        ensures
            r@ == self@[id.0 as int],
    {
        self.strs_by_id[id.0 as usize].as_str()
    }
}

/// Interning is idempotent: interning a string that is already present changes nothing and
/// returns the id it had; and the interned string is what `get` returns for its id.
pub proof fn law_intern_idempotent(before: Seq<Seq<char>>, after: Seq<Seq<char>>, s: Seq<char>, id: nat)
    requires
        forall|i: int, j: int| 0 <= i < j < before.len() ==> before[i] != before[j],
        before.contains(s),
        after == before,
        id < after.len(),
        after[id as int] == s,
    ensures
        forall|k: int| 0 <= k < before.len() && before[k] == s ==> k == id,
{
}

} // verus!
