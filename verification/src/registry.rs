//! Dense ids for the effect kinds and parameter keys met while normalizing effects.
//!
//! A name gets the next id the first time it is met and keeps it afterwards; ids saturate at
//! `u16::MAX`. The finished bindings map every interned string to its id, if it has one.
use vstd::prelude::*;
use crate::plan::InternId;

verus! {

/// Dense id of an effect kind.
#[derive(Debug, Clone, Copy, PartialEq, Eq)]
pub struct EffectKindId(pub u16);

/// Dense id of an effect parameter key.
#[derive(Debug, Clone, Copy, PartialEq, Eq)]
pub struct ParamId(pub u16);

/// Id of the `p`-th name met: `p`, saturated at `u16::MAX`.
pub open spec fn dense_id(p: int) -> u16 {
    if p >= u16::MAX { u16::MAX } else { p as u16 }
}

/// Entries are pairwise distinct.
pub open spec fn distinct(s: Seq<InternId>) -> bool {
    forall|i: int, j: int| 0 <= i < j < s.len() ==> s[i] != s[j]
}

/// Id of `k` in a first-seen list: its position, saturated; `None` when absent.
pub open spec fn id_in(s: Seq<InternId>, k: InternId) -> Option<u16> {
    if s.contains(k) { Some(dense_id(s.index_of(k))) } else { None }
}

/// The finished bindings: names in id order, and each interned string's id.
#[derive(Debug, Clone)]
pub struct RegistryBindings {
    /// Effect kinds, in first-seen order.
    pub effect_intern_by_id: Vec<InternId>,
    /// For each interned string, its effect kind id if it is an effect kind.
    pub effect_kind_by_intern: Vec<Option<EffectKindId>>,
    /// Parameter keys, in first-seen order.
    pub param_intern_by_id: Vec<InternId>,
    /// For each interned string, its parameter id if it is a parameter key.
    pub param_id_by_intern: Vec<Option<ParamId>>,
}

/// Assigns ids to effect kinds and parameter keys as they are met.
#[derive(Debug, Clone)]
pub struct RegistryBindingsBuilder {
    effect_intern_by_id: Vec<InternId>,
    param_intern_by_id: Vec<InternId>,
}

/// Position of `k` in `v`, if present.
fn position(v: &Vec<InternId>, k: InternId) -> (r: Option<usize>)
    requires
        distinct(v@),
    ensures
        r is Some <==> v@.contains(k),
        r matches Some(p) ==> p < v@.len() && v@[p as int] == k && p == v@.index_of(k),
{
    let n = v.len();
    let mut i: usize = 0;
    while i < n
        invariant
            n == v@.len(),
            distinct(v@),
            i <= n,
            forall|j: int| 0 <= j < i ==> v@[j] != k,
        decreases n - i,
    {
        if v[i].0 == k.0 {
            assert(v@[i as int] == k);
            proof {
                let p = v@.index_of(k);
                assert(v@.contains(k));
                assert(0 <= p < v@.len() && v@[p] == k);
                assert(p == i) by {
                    if p < i { assert(v@[p] != k); }
                    else if p > i { assert(v@[p] != v@[i as int]); }
                }
            }
            return Some(i);
        }
        i = i + 1;
    }
    None
}

/// Id of `k` in first-seen list `v`, appending it when new.
fn dense_id_of(v: &mut Vec<InternId>, k: InternId) -> (id: u16)
    requires
        distinct(old(v)@),
    ensures
        distinct(final(v)@),
        old(v)@.contains(k) ==> final(v)@ == old(v)@ && id == dense_id(old(v)@.index_of(k)),
        !old(v)@.contains(k) ==> final(v)@ == old(v)@.push(k) && id == dense_id(old(v)@.len() as int),
{
    match position(v, k) {
        Some(p) => {
            if p >= 65535 { 65535 } else { p as u16 }
        },
        None => {
            let n = v.len();
            v.push(k);
            if n >= 65535 { 65535 } else { n as u16 }
        },
    }
}

/// The bindings table over `n` interned strings.
fn bind_table(v: &Vec<InternId>, n: usize) -> (r: Vec<Option<u16>>)
    requires
        distinct(v@),
        n <= u32::MAX + 1,
    ensures
        r@.len() == n,
        forall|i: int| 0 <= i < n ==> #[trigger] r@[i] == id_in(v@, InternId(i as u32)),
{
    let mut r: Vec<Option<u16>> = Vec::new();
    let mut i: usize = 0;
    while i < n
        invariant
            distinct(v@),
            n <= u32::MAX + 1,
            i <= n,
            r@.len() == i,
            forall|m: int| 0 <= m < i ==> #[trigger] r@[m] == id_in(v@, InternId(m as u32)),
        decreases n - i,
    {
        match position(v, InternId(i as u32)) {
            Some(p) => r.push(Some(if p >= 65535 { 65535 } else { p as u16 })),
            None => r.push(None),
        }
        i = i + 1;
    }
    r
}

impl RegistryBindingsBuilder {
    /// Effect kinds met so far, in first-seen order.
    pub closed spec fn effects(&self) -> Seq<InternId> {
        self.effect_intern_by_id@
    }

    /// Parameter keys met so far, in first-seen order.
    pub closed spec fn params(&self) -> Seq<InternId> {
        self.param_intern_by_id@
    }

    /// No name is listed twice.
    pub open spec fn wf(&self) -> bool {
        distinct(self.effects()) && distinct(self.params())
    }

    /// A builder that has met nothing.
    pub fn new() -> (r: Self)
        ensures
            r.wf(),
            r.effects() == Seq::<InternId>::empty(),
            r.params() == Seq::<InternId>::empty(),
    {
        RegistryBindingsBuilder { effect_intern_by_id: Vec::new(), param_intern_by_id: Vec::new() }
    }

    /// Id of effect kind `kind`: the id it got when first met, else the next one.
    pub fn effect_kind_id(&mut self, kind: InternId) -> (id: EffectKindId)
        requires
            old(self).wf(),
        ensures
            final(self).wf(),
            final(self).params() == old(self).params(),
            old(self).effects().contains(kind) ==> final(self).effects() == old(self).effects()
                && id.0 == dense_id(old(self).effects().index_of(kind)),
            !old(self).effects().contains(kind) ==> final(self).effects() == old(self).effects().push(kind)
                && id.0 == dense_id(old(self).effects().len() as int),
    {
        EffectKindId(dense_id_of(&mut self.effect_intern_by_id, kind))
    }

    /// Id of parameter key `key`: the id it got when first met, else the next one.
    pub fn param_id(&mut self, key: InternId) -> (id: ParamId)
        requires
            old(self).wf(),
        ensures
            final(self).wf(),
            final(self).effects() == old(self).effects(),
            old(self).params().contains(key) ==> final(self).params() == old(self).params()
                && id.0 == dense_id(old(self).params().index_of(key)),
            !old(self).params().contains(key) ==> final(self).params() == old(self).params().push(key)
                && id.0 == dense_id(old(self).params().len() as int),
    {
        ParamId(dense_id_of(&mut self.param_intern_by_id, key))
    }

    /// The finished bindings over `interned` strings (an interner holds at most `2^32`).
    pub fn build(&self, interned: usize) -> (r: RegistryBindings)
        requires
            self.wf(),
            interned <= u32::MAX + 1,
        ensures
            r.effect_intern_by_id@ == self.effects(),
            r.param_intern_by_id@ == self.params(),
            r.effect_kind_by_intern@.len() == interned,
            r.param_id_by_intern@.len() == interned,
            forall|i: int| 0 <= i < interned ==> #[trigger] r.effect_kind_by_intern@[i]
                == (match id_in(self.effects(), InternId(i as u32)) { Some(d) => Some(EffectKindId(d)), None => None }),
            forall|i: int| 0 <= i < interned ==> #[trigger] r.param_id_by_intern@[i]
                == (match id_in(self.params(), InternId(i as u32)) { Some(d) => Some(ParamId(d)), None => None }),
    {
        let et = bind_table(&self.effect_intern_by_id, interned);
        let pt = bind_table(&self.param_intern_by_id, interned);
        let mut effect_kind_by_intern: Vec<Option<EffectKindId>> = Vec::new();
        let mut param_id_by_intern: Vec<Option<ParamId>> = Vec::new();
        let mut i: usize = 0;
        while i < interned
            invariant
                et@.len() == interned,
                pt@.len() == interned,
                i <= interned,
                effect_kind_by_intern@.len() == i,
                param_id_by_intern@.len() == i,
                forall|m: int| 0 <= m < interned ==> #[trigger] et@[m] == id_in(self.effects(), InternId(m as u32)),
                forall|m: int| 0 <= m < interned ==> #[trigger] pt@[m] == id_in(self.params(), InternId(m as u32)),
                forall|m: int| 0 <= m < i ==> #[trigger] effect_kind_by_intern@[m]
                    == (match et@[m] { Some(d) => Some(EffectKindId(d)), None => None }),
                forall|m: int| 0 <= m < i ==> #[trigger] param_id_by_intern@[m]
                    == (match pt@[m] { Some(d) => Some(ParamId(d)), None => None }),
            decreases interned - i,
        {
            effect_kind_by_intern.push(match et[i] { Some(d) => Some(EffectKindId(d)), None => None });
            param_id_by_intern.push(match pt[i] { Some(d) => Some(ParamId(d)), None => None });
            i = i + 1;
        }
        RegistryBindings {
            effect_intern_by_id: self.effect_intern_by_id.clone(),
            effect_kind_by_intern,
            param_intern_by_id: self.param_intern_by_id.clone(),
            param_id_by_intern,
        }
    }
}

/// The id a name is handed when met is the id the finished bindings give it.
pub proof fn law_handed_out_id_is_bound(before: Seq<InternId>, after: Seq<InternId>, k: InternId, id: u16)
    requires
        distinct(before),
        before.contains(k) ==> after == before && id == dense_id(before.index_of(k)),
        !before.contains(k) ==> after == before.push(k) && id == dense_id(before.len() as int),
    ensures
        id_in(after, k) == Some(id),
{
    if !before.contains(k) {
        assert(after[before.len() as int] == k);
        assert(after.contains(k));
        let p = after.index_of(k);
        if p < before.len() {
            assert(before[p] == k);
        }
    }
}

} // verus!
