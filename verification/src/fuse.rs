//! Plan fusion: remove passes that change nothing, fold chained colour matrices and
//! composite opacity into their producers, and rebuild the dependencies.
//!
//! Floating-point parameters are compared here through their bit patterns, exactly as IEEE-754
//! orders and compares them. The arithmetic that fusion implies (multiplying opacities and
//! colour matrices) is reported as fix-ups for the renderer to apply.
use vstd::prelude::*;
use crate::plan::{BlendMode, CompositeOp, MaskMode, Op, OpId, OpKind, PassFx, RenderPlan, SurfaceId};
use crate::compile::{deps_ok, last_write_ok, push_op, surfaces_in};

verus! {

/// Whether the `f32` with these bits equals `1.0`.
pub open spec fn f32_is_one(bits: u32) -> bool {
    bits == 0x3F80_0000
}

/// Whether the `f32` with these bits equals `0.0` (either sign).
pub open spec fn f32_is_zero(bits: u32) -> bool {
    bits == 0 || bits == 0x8000_0000
}

/// Whether the `f32` with these bits is `<= 0.0`: a zero or a negative number (no NaN).
pub open spec fn f32_le_zero(bits: u32) -> bool {
    bits == 0 || (0x8000_0000 <= bits && bits <= 0xFF80_0000)
}

/// Whether the `f32` with these bits lies within `1e-6` (as `f32`) of `target` (`0` or `1`),
/// as `(x - target).abs() <= 1e-6` computes in `f32`: within 16 units below and 8 units above
/// `1.0`, or of magnitude at most `1e-6` around `0.0`.
pub open spec fn f32_near(bits: u32, one: bool) -> bool {
    if one {
        0x3F7F_FFF0 <= bits && bits <= 0x3F80_0008
    } else {
        bits == 0 || (bits < 0x8000_0000 && bits <= 0x3586_37BD) || (bits >= 0x8000_0000 && bits - 0x8000_0000 <= 0x3586_37BD)
    }
}

/// Whether a 4x5 colour matrix is the identity within `1e-6` per coefficient.
pub open spec fn identity_matrix(m: Seq<u32>) -> bool {
    forall|i: int| 0 <= i < 20 ==> f32_near(#[trigger] m[i], i % 5 == i / 5)
}

fn near_bits(bits: u32, one: bool) -> (r: bool)
    ensures
        r == f32_near(bits, one),
{
    if one {
        0x3F7F_FFF0 <= bits && bits <= 0x3F80_0008
    } else {
        bits == 0 || (bits < 0x8000_0000 && bits <= 0x3586_37BD) || (bits >= 0x8000_0000 && bits - 0x8000_0000 <= 0x3586_37BD)
    }
}

/// Whether a colour matrix (as `f32` bits) is the identity within `1e-6` per coefficient.
pub fn is_identity_color_matrix(m: &[u32; 20]) -> (r: bool)
    ensures
        r == identity_matrix(m@),
{
    let mut i: usize = 0;
    while i < 20
        invariant
            i <= 20,
            m@.len() == 20,
            forall|j: int| 0 <= j < i ==> f32_near(#[trigger] m@[j], j % 5 == j / 5),
        decreases 20 - i,
    {
        if !near_bits(m[i], i % 5 == i / 5) {
            return false;
        }
        i = i + 1;
    }
    true
}

/// Whether a mask pass leaves its source unchanged: a non-inverted stencil whose threshold is
/// at most `0`.
pub open spec fn noop_mask(mode: MaskMode, inverted: bool) -> bool {
    !inverted && (mode matches MaskMode::Stencil { threshold_bits } && f32_le_zero(threshold_bits))
}

/// Whether applying a mask in this mode changes nothing.
pub fn is_noop_mask_apply(mode: MaskMode, inverted: bool) -> (r: bool)
    ensures
        r == noop_mask(mode, inverted),
{
    if inverted {
        return false;
    }
    match mode {
        MaskMode::Alpha | MaskMode::Luma => false,
        MaskMode::Stencil { threshold_bits } => threshold_bits == 0 || (0x8000_0000 <= threshold_bits && threshold_bits <= 0xFF80_0000),
    }
}

// ---------------------------------------------------------------------------------------
// Surface aliasing: a forest of surfaces, each pointing at the surface it stands for.
// ---------------------------------------------------------------------------------------

/// Every alias entry names a surface of the table.
pub open spec fn alias_ok(alias: Seq<SurfaceId>) -> bool {
    forall|i: int| 0 <= i < alias.len() ==> (#[trigger] alias[i]).0 < alias.len()
}

/// The representative of `s`: follow aliases until a surface stands for itself (at most
/// `fuel` steps).
pub open spec fn find(alias: Seq<SurfaceId>, s: SurfaceId, fuel: nat) -> SurfaceId
    decreases fuel,
{
    if fuel == 0 || s.0 >= alias.len() || alias[s.0 as int] == s {
        s
    } else {
        find(alias, alias[s.0 as int], (fuel - 1) as nat)
    }
}

/// Point every surface on the path from `x` (at most `fuel` steps) straight at `r`.
pub open spec fn compress(alias: Seq<SurfaceId>, x: SurfaceId, r: SurfaceId, fuel: nat) -> Seq<SurfaceId>
    decreases fuel,
{
    if fuel == 0 || x.0 >= alias.len() || alias[x.0 as int] == x {
        alias
    } else {
        compress(alias.update(x.0 as int, r), alias[x.0 as int], r, (fuel - 1) as nat)
    }
}

/// Representative of `s` and the table after path compression.
pub open spec fn canon(alias: Seq<SurfaceId>, s: SurfaceId) -> (SurfaceId, Seq<SurfaceId>) {
    let r = find(alias, s, alias.len());
    (r, compress(alias, s, r, alias.len()))
}

proof fn lemma_find_in(alias: Seq<SurfaceId>, s: SurfaceId, fuel: nat)
    requires
        alias_ok(alias),
        s.0 < alias.len(),
    ensures
        find(alias, s, fuel).0 < alias.len(),
    decreases fuel,
{
    if !(fuel == 0 || alias[s.0 as int] == s) {
        lemma_find_in(alias, alias[s.0 as int], (fuel - 1) as nat);
    }
}

proof fn lemma_compress_ok(alias: Seq<SurfaceId>, x: SurfaceId, r: SurfaceId, fuel: nat)
    requires
        alias_ok(alias),
        r.0 < alias.len(),
    ensures
        alias_ok(compress(alias, x, r, fuel)),
        compress(alias, x, r, fuel).len() == alias.len(),
    decreases fuel,
{
    if !(fuel == 0 || x.0 >= alias.len() || alias[x.0 as int] == x) {
        let a2 = alias.update(x.0 as int, r);
        assert(alias_ok(a2));
        lemma_compress_ok(a2, alias[x.0 as int], r, (fuel - 1) as nat);
    }
}

/// The representative of `s`, compressing the path to it.
pub fn canon_surface(s: SurfaceId, alias_of: &mut Vec<SurfaceId>) -> (r: SurfaceId)
    requires
        alias_ok(old(alias_of)@),
        s.0 < old(alias_of)@.len(),
    ensures
        (r, final(alias_of)@) == canon(old(alias_of)@, s),
        alias_ok(final(alias_of)@),
        final(alias_of)@.len() == old(alias_of)@.len(),
        r.0 < final(alias_of)@.len(),
{
    let ghost a0 = alias_of@;
    let n = alias_of.len();
    let mut cur = s;
    let mut fuel = n;
    while fuel > 0 && alias_of[cur.0 as usize].0 != cur.0
        invariant
            alias_of@ == a0,
            alias_ok(a0),
            n == a0.len(),
            fuel <= n,
            cur.0 < n,
            find(a0, s, n as nat) == find(a0, cur, fuel as nat),
        decreases fuel,
    {
        cur = alias_of[cur.0 as usize];
        fuel = fuel - 1;
    }
    proof {
        lemma_find_in(a0, s, n as nat);
    }
    let ghost r = cur;
    assert(r == find(a0, s, n as nat)) by {
        if fuel > 0 {
            assert(alias_of@[cur.0 as int] == cur);
        }
    }
    let mut x = s;
    let mut fuel2 = n;
    while fuel2 > 0 && alias_of[x.0 as usize].0 != x.0
        invariant
            alias_ok(a0),
            alias_ok(alias_of@),
            alias_of@.len() == n,
            n == a0.len(),
            fuel2 <= n,
            x.0 < n,
            cur == r,
            r.0 < n,
            compress(a0, s, r, n as nat) == compress(alias_of@, x, r, fuel2 as nat),
        decreases fuel2,
    {
        let p = alias_of[x.0 as usize];
        alias_of.set(x.0 as usize, cur);
        x = p;
        fuel2 = fuel2 - 1;
    }
    assert(compress(alias_of@, x, r, fuel2 as nat) == alias_of@) by {
        if fuel2 > 0 {
            assert(alias_of@[x.0 as int] == x);
        }
    }
    cur
}

/// Table after making `dst` stand for the representative of `src`.
pub open spec fn alias_to(alias: Seq<SurfaceId>, dst: SurfaceId, src: SurfaceId) -> Seq<SurfaceId> {
    let (r, a1) = canon(alias, src);
    a1.update(dst.0 as int, r)
}

/// Make `dst` stand for whatever `src` stands for.
pub fn alias_surface(dst: SurfaceId, src: SurfaceId, alias_of: &mut Vec<SurfaceId>)
    requires
        alias_ok(old(alias_of)@),
        src.0 < old(alias_of)@.len(),
        dst.0 < old(alias_of)@.len(),
    ensures
        final(alias_of)@ == alias_to(old(alias_of)@, dst, src),
        alias_ok(final(alias_of)@),
        final(alias_of)@.len() == old(alias_of)@.len(),
{
    let r = canon_surface(src, alias_of);
    alias_of.set(dst.0 as usize, r);
}

// ---------------------------------------------------------------------------------------
// Pass 1: how often each surface is read, who writes it first, and which composite
// opacities fold into the draw that produced their source.
// ---------------------------------------------------------------------------------------

/// Occurrences of surface `s` in `ins[..k]`.
pub open spec fn count_in(ins: Seq<SurfaceId>, s: int, k: int) -> nat
    decreases k,
{
    if k <= 0 { 0 } else { count_in(ins, s, k - 1) + if ins[k - 1].0 == s { 1nat } else { 0nat } }
}

/// Occurrences of surface `s` among the inputs of the first `k` ops.
pub open spec fn uses(ops: Seq<Op>, s: int, k: int) -> nat
    decreases k,
{
    if k <= 0 { 0 } else { uses(ops, s, k - 1) + count_in(ops[k - 1].inputs@, s, ops[k - 1].inputs@.len() as int) }
}

/// Reads of surface `s` in the plan, saturated to `u32`.
pub open spec fn use_count(ops: Seq<Op>, s: int) -> u32 {
    let u = uses(ops, s, ops.len() as int);
    if u > u32::MAX { u32::MAX } else { u as u32 }
}

/// The first of the first `k` ops that writes `s`.
pub open spec fn first_writer(ops: Seq<Op>, s: int, k: int) -> Option<int>
    decreases k,
{
    if k <= 0 {
        None
    } else {
        match first_writer(ops, s, k - 1) {
            Some(p) => Some(p),
            None => if ops[k - 1].output.0 == s { Some(k - 1) } else { None },
        }
    }
}

/// The single step of a one-step composite, if it is an over.
pub open spec fn single_over(k: OpKind) -> Option<(SurfaceId, u32, BlendMode)> {
    match k {
        OpKind::Composite { ops, .. } => if ops@.len() == 1 {
            match ops@[0] {
                CompositeOp::Over { src, opacity_bits, blend } => Some((src, opacity_bits, blend)),
                _ => None,
            }
        } else {
            None
        },
        _ => None,
    }
}

/// The draw op that absorbs the opacity of composite op `i`: a normal-blend over, not at full
/// opacity, whose source is read once and first written by a draw.
pub open spec fn fold_target(ops: Seq<Op>, i: int) -> Option<int> {
    match single_over(ops[i].kind) {
        Some((src, bits, blend)) => {
            if blend == BlendMode::Normal && !f32_is_one(bits) && use_count(ops, src.0 as int) == 1 {
                match first_writer(ops, src.0 as int, ops.len() as int) {
                    Some(p) => if ops[p].kind is Draw { Some(p) } else { None },
                    None => None,
                }
            } else {
                None
            }
        },
        None => None,
    }
}

/// Opacity folds among the first `k` ops: `(draw, composite)` pairs in composite order.
pub open spec fn opacity_folds(ops: Seq<Op>, k: int) -> Seq<(int, int)>
    decreases k,
{
    if k <= 0 {
        Seq::empty()
    } else {
        match fold_target(ops, k - 1) {
            Some(p) => opacity_folds(ops, k - 1).push((p, k - 1)),
            None => opacity_folds(ops, k - 1),
        }
    }
}

/// Every op's surfaces and every composite step's surfaces lie below `n`.
pub open spec fn plan_surfaces_in(ops: Seq<Op>, n: int) -> bool {
    &&& surfaces_in(ops, n)
    &&& forall|i: int| 0 <= i < ops.len() ==> comp_in(#[trigger] ops[i].kind, n)
}

/// The surfaces named by a composite's steps lie below `n`.
pub open spec fn comp_in(k: OpKind, n: int) -> bool {
    match k {
        OpKind::Composite { ops, .. } => forall|j: int| 0 <= j < ops@.len() ==> step_in(#[trigger] ops@[j], n),
        _ => true,
    }
}

/// The surfaces named by a composite step lie below `n`.
pub open spec fn step_in(c: CompositeOp, n: int) -> bool {
    match c {
        CompositeOp::Over { src, .. } => src.0 < n,
        CompositeOp::Crossfade { a, b, .. } => a.0 < n && b.0 < n,
        CompositeOp::Wipe { a, b, .. } => a.0 < n && b.0 < n,
        CompositeOp::Slide { a, b, .. } => a.0 < n && b.0 < n,
        CompositeOp::Zoom { a, b, .. } => a.0 < n && b.0 < n,
        CompositeOp::Iris { a, b, .. } => a.0 < n && b.0 < n,
    }
}

proof fn lemma_first_writer(ops: Seq<Op>, s: int, k: int)
    ensures
        first_writer(ops, s, k) matches Some(p) ==> 0 <= p < k && ops[p].output.0 == s,
    decreases k,
{
    if k > 0 {
        lemma_first_writer(ops, s, k - 1);
    }
}

fn surface_use_counts(ops: &Vec<Op>, n: usize) -> (uc: Vec<u32>)
    requires
        surfaces_in(ops@, n as int),
    ensures
        uc@.len() == n,
        forall|s: int| 0 <= s < n ==> #[trigger] uc@[s] == use_count(ops@, s),
{
    let mut uc: Vec<u32> = Vec::new();
    let mut k: usize = 0;
    while k < n
        invariant
            k <= n,
            uc@.len() == k,
            forall|s: int| 0 <= s < k ==> uc@[s] == 0,
        decreases n - k,
    {
        uc.push(0);
        k = k + 1;
    }
    let mut i: usize = 0;
    while i < ops.len()
        invariant
            i <= ops@.len(),
            uc@.len() == n,
            surfaces_in(ops@, n as int),
            forall|s: int| 0 <= s < n ==> #[trigger] uc@[s] == (if uses(ops@, s, i as int) > u32::MAX { u32::MAX as int } else { uses(ops@, s, i as int) as int }),
        decreases ops@.len() - i,
    {
        let ins = &ops[i].inputs;
        let ghost before = uc@;
        let mut j: usize = 0;
        while j < ins.len()
            invariant
                j <= ins@.len(),
                ins@ == ops@[i as int].inputs@,
                i < ops@.len(),
                uc@.len() == n,
                surfaces_in(ops@, n as int),
                forall|s: int| 0 <= s < n ==> #[trigger] uc@[s] == (if uses(ops@, s, i as int) + count_in(ins@, s, j as int) > u32::MAX { u32::MAX as int } else { (uses(ops@, s, i as int) + count_in(ins@, s, j as int)) as int }),
            decreases ins@.len() - j,
        {
            let s = ins[j];
            assert(s.0 < n) by {
                assert(ops@[i as int].inputs@[j as int] == s);
            }
            let v = uc[s.0 as usize];
            uc.set(s.0 as usize, v.saturating_add(1));
            j = j + 1;
        }
        i = i + 1;
    }
    uc
}

fn first_producers(ops: &Vec<Op>, n: usize) -> (pr: Vec<Option<usize>>)
    requires
        surfaces_in(ops@, n as int),
    ensures
        pr@.len() == n,
        forall|s: int| 0 <= s < n ==> #[trigger] pr@[s] == (match first_writer(ops@, s, ops@.len() as int) {
            Some(p) => Some(p as usize),
            None => None::<usize>,
        }),
{
    let mut pr: Vec<Option<usize>> = Vec::new();
    let mut k: usize = 0;
    while k < n
        invariant
            k <= n,
            pr@.len() == k,
            forall|s: int| 0 <= s < k ==> pr@[s] is None,
        decreases n - k,
    {
        pr.push(None);
        k = k + 1;
    }
    let mut i: usize = 0;
    while i < ops.len()
        invariant
            i <= ops@.len(),
            pr@.len() == n,
            surfaces_in(ops@, n as int),
            forall|s: int| 0 <= s < n ==> #[trigger] pr@[s] == (match first_writer(ops@, s, i as int) {
                Some(p) => Some(p as usize),
                None => None::<usize>,
            }),
        decreases ops@.len() - i,
    {
        let out = ops[i].output.0 as usize;
        if pr[out].is_none() {
            pr.set(out, Some(i));
        }
        i = i + 1;
    }
    pr
}

/// `(usize, usize)` pairs as integer pairs.
pub open spec fn pairs_view(v: Seq<(usize, usize)>) -> Seq<(int, int)> {
    Seq::new(v.len(), |j: int| (v[j].0 as int, v[j].1 as int))
}

fn exec_single_over(k: &OpKind) -> (r: Option<(SurfaceId, u32, BlendMode)>)
    ensures
        r == single_over(*k),
{
    match k {
        OpKind::Composite { ops, .. } => {
            if ops.len() == 1 {
                match ops[0] {
                    CompositeOp::Over { src, opacity_bits, blend } => Some((src, opacity_bits, blend)),
                    _ => None,
                }
            } else {
                None
            }
        },
        _ => None,
    }
}

fn is_normal(b: BlendMode) -> (r: bool)
    ensures
        r == (b == BlendMode::Normal),
{
    match b {
        BlendMode::Normal => true,
        _ => false,
    }
}

fn is_draw(k: &OpKind) -> (r: bool)
    ensures
        r == (*k is Draw),
{
    match k {
        OpKind::Draw { .. } => true,
        _ => false,
    }
}

fn fold_opacities(ops: &Vec<Op>, uc: &Vec<u32>, pr: &Vec<Option<usize>>) -> (folds: Vec<(usize, usize)>)
    requires
        plan_surfaces_in(ops@, uc@.len() as int),
        pr@.len() == uc@.len(),
        forall|s: int| 0 <= s < uc@.len() ==> #[trigger] uc@[s] == use_count(ops@, s),
        forall|s: int| 0 <= s < pr@.len() ==> #[trigger] pr@[s] == (match first_writer(ops@, s, ops@.len() as int) {
            Some(p) => Some(p as usize),
            None => None::<usize>,
        }),
    ensures
        pairs_view(folds@) == opacity_folds(ops@, ops@.len() as int),
{
    let mut folds: Vec<(usize, usize)> = Vec::new();
    let mut i: usize = 0;
    while i < ops.len()
        invariant
            i <= ops@.len(),
            plan_surfaces_in(ops@, uc@.len() as int),
            pr@.len() == uc@.len(),
            forall|s: int| 0 <= s < uc@.len() ==> #[trigger] uc@[s] == use_count(ops@, s),
            forall|s: int| 0 <= s < pr@.len() ==> #[trigger] pr@[s] == (match first_writer(ops@, s, ops@.len() as int) {
                Some(p) => Some(p as usize),
                None => None::<usize>,
            }),
            pairs_view(folds@) == opacity_folds(ops@, i as int),
        decreases ops@.len() - i,
    {
        let ghost target = fold_target(ops@, i as int);
        let mut found: Option<usize> = None;
        match exec_single_over(&ops[i].kind) {
            Some((src, bits, blend)) => {
                assert(comp_in(ops@[i as int].kind, uc@.len() as int));
                assert(src.0 < uc@.len()) by {
                    assert(step_in(CompositeOp::Over { src, opacity_bits: bits, blend }, uc@.len() as int));
                    if let OpKind::Composite { ops: cs, .. } = ops@[i as int].kind {
                        assert(step_in(cs@[0], uc@.len() as int));
                    }
                }
                if is_normal(blend) && bits != 0x3F80_0000u32 && uc[src.0 as usize] == 1 {
                    proof {
                        lemma_first_writer(ops@, src.0 as int, ops@.len() as int);
                    }
                    match pr[src.0 as usize] {
                        Some(p) => {
                            if is_draw(&ops[p].kind) {
                                found = Some(p);
                            }
                        },
                        None => {},
                    }
                }
            },
            None => {},
        }
        assert(found == match target { Some(p) => Some(p as usize), None => None::<usize> });
        if let Some(p) = found {
            folds.push((p, i));
        }
        proof {
            assert(pairs_view(folds@) =~= opacity_folds(ops@, i + 1));
        }
        i = i + 1;
    }
    folds
}

// ---------------------------------------------------------------------------------------
// Pass 2: rebuild the ops over canonical surfaces.
// ---------------------------------------------------------------------------------------

/// A rebuilt op: the op it comes from, its canonical inputs and output and, for a composite,
/// its steps over canonical surfaces.
pub struct RebuiltV {
    /// Index of the original op.
    pub src: int,
    /// Canonical inputs.
    pub inputs: Seq<SurfaceId>,
    /// Canonical output.
    pub output: SurfaceId,
    /// Composite steps (empty for other ops).
    pub comp: Seq<CompositeOp>,
}

/// State of the rebuild.
pub struct FuseV {
    /// Alias table.
    pub alias: Seq<SurfaceId>,
    /// Ops kept so far.
    pub rebuilt: Seq<RebuiltV>,
    /// Per surface: the kept op that last wrote it.
    pub rprod: Seq<Option<int>>,
    /// Colour matrices folded: `(kept op, original op)`, applied in order as `kept = op * kept`.
    pub mfolds: Seq<(int, int)>,
    /// Over steps whose opacity resets to `1.0` when the producing draw absorbed a factor
    /// other than `1.0`: `(kept composite op, original producing op)`.
    pub resets: Seq<(int, int)>,
}

/// Canonical images of `ins[..k]`, left to right, and the resulting table.
pub open spec fn canon_all(alias: Seq<SurfaceId>, ins: Seq<SurfaceId>, k: int) -> (Seq<SurfaceId>, Seq<SurfaceId>)
    decreases k,
{
    if k <= 0 {
        (Seq::empty(), alias)
    } else {
        let (rs, a) = canon_all(alias, ins, k - 1);
        let (r, a2) = canon(a, ins[k - 1]);
        (rs.push(r), a2)
    }
}

/// A composite step over canonical surfaces (first `a`, then `b`).
pub open spec fn canon_step(alias: Seq<SurfaceId>, c: CompositeOp) -> (CompositeOp, Seq<SurfaceId>) {
    match c {
        CompositeOp::Over { src, opacity_bits, blend } => {
            let (s2, a1) = canon(alias, src);
            (CompositeOp::Over { src: s2, opacity_bits, blend }, a1)
        },
        CompositeOp::Crossfade { a, b, t_bits } => {
            let (a2, x1) = canon(alias, a);
            let (b2, x2) = canon(x1, b);
            (CompositeOp::Crossfade { a: a2, b: b2, t_bits }, x2)
        },
        CompositeOp::Wipe { a, b, t_bits, dir, soft_edge_bits } => {
            let (a2, x1) = canon(alias, a);
            let (b2, x2) = canon(x1, b);
            (CompositeOp::Wipe { a: a2, b: b2, t_bits, dir, soft_edge_bits }, x2)
        },
        CompositeOp::Slide { a, b, t_bits, dir, push } => {
            let (a2, x1) = canon(alias, a);
            let (b2, x2) = canon(x1, b);
            (CompositeOp::Slide { a: a2, b: b2, t_bits, dir, push }, x2)
        },
        CompositeOp::Zoom { a, b, t_bits, origin_x_bits, origin_y_bits, from_scale_bits } => {
            let (a2, x1) = canon(alias, a);
            let (b2, x2) = canon(x1, b);
            (CompositeOp::Zoom { a: a2, b: b2, t_bits, origin_x_bits, origin_y_bits, from_scale_bits }, x2)
        },
        CompositeOp::Iris { a, b, t_bits, origin_x_bits, origin_y_bits, shape, soft_edge_bits } => {
            let (a2, x1) = canon(alias, a);
            let (b2, x2) = canon(x1, b);
            (CompositeOp::Iris { a: a2, b: b2, t_bits, origin_x_bits, origin_y_bits, shape, soft_edge_bits }, x2)
        },
    }
}

/// The first `k` composite steps over canonical surfaces, and the resulting table.
pub open spec fn canon_comp(alias: Seq<SurfaceId>, cs: Seq<CompositeOp>, k: int) -> (Seq<CompositeOp>, Seq<SurfaceId>)
    decreases k,
{
    if k <= 0 {
        (Seq::empty(), alias)
    } else {
        let (rs, a) = canon_comp(alias, cs, k - 1);
        let (c, a2) = canon_step(a, cs[k - 1]);
        (rs.push(c), a2)
    }
}

/// Whether an op kind is a colour-matrix pass.
pub open spec fn is_matrix_pass(k: OpKind) -> bool {
    k matches OpKind::Pass { fx: PassFx::ColorMatrix { .. } }
}

/// The kept colour-matrix op a matrix pass reading `src` folds into: `src` is read once and
/// its last kept writer is a colour-matrix pass.
pub open spec fn matrix_fold_target(ops: Seq<Op>, st: FuseV, src: SurfaceId) -> Option<int> {
    if use_count(ops, src.0 as int) == 1 && src.0 < st.rprod.len() {
        match st.rprod[src.0 as int] {
            Some(pi) => if 0 <= pi < st.rebuilt.len() && is_matrix_pass(ops[st.rebuilt[pi].src].kind) { Some(pi) } else { None },
            None => None,
        }
    } else {
        None
    }
}

/// The original op whose absorbed opacity decides whether a one-step normal over resets its
/// opacity: the first writer of its (canonical) source, when that source is read once.
pub open spec fn reset_target(ops: Seq<Op>, cs: Seq<CompositeOp>) -> Option<int> {
    if cs.len() == 1 {
        match cs[0] {
            CompositeOp::Over { src, blend, .. } => {
                if blend == BlendMode::Normal && use_count(ops, src.0 as int) == 1 {
                    first_writer(ops, src.0 as int, ops.len() as int)
                } else {
                    None
                }
            },
            _ => None,
        }
    } else {
        None
    }
}

/// Keep op `i` with canonical inputs, output and composite steps.
pub open spec fn keep(st: FuseV, i: int, ins: Seq<SurfaceId>, out: SurfaceId, comp: Seq<CompositeOp>, alias: Seq<SurfaceId>) -> FuseV {
    FuseV {
        alias,
        rebuilt: st.rebuilt.push(RebuiltV { src: i, inputs: ins, output: out, comp }),
        rprod: st.rprod.update(out.0 as int, Some(st.rebuilt.len() as int)),
        ..st
    }
}

/// Drop op `i`, its output now standing for the canonical surface of `src`.
pub open spec fn drop_alias(st: FuseV, alias: Seq<SurfaceId>, dst: SurfaceId, src: SurfaceId) -> FuseV {
    FuseV { alias: alias_to(alias, dst, src), ..st }
}

/// One step of the rebuild: canonicalize op `i`'s inputs and output; drop a blur of radius
/// or sigma `0`, a colour matrix that folds into the previous one or is the identity, and a
/// mask application that changes nothing (their outputs then stand for their first input);
/// drop composites without steps; keep everything else.
pub open spec fn fuse_step(ops: Seq<Op>, i: int, st: FuseV) -> FuseV {
    let op = ops[i];
    let (ins, a1) = canon_all(st.alias, op.inputs@, op.inputs@.len() as int);
    let (out, a2) = canon(a1, op.output);
    match op.kind {
        OpKind::Pass { fx } => match fx {
            PassFx::Blur { radius_px, sigma_bits } => {
                if (radius_px == 0 || f32_is_zero(sigma_bits)) && ins.len() > 0 {
                    drop_alias(st, a2, op.output, ins[0])
                } else {
                    keep(st, i, ins, out, Seq::empty(), a2)
                }
            },
            PassFx::ColorMatrix { matrix_bits } => {
                if ins.len() > 0 && matrix_fold_target(ops, st, ins[0]) is Some {
                    let st2 = drop_alias(st, a2, op.output, ins[0]);
                    FuseV { mfolds: st2.mfolds.push((matrix_fold_target(ops, st, ins[0])->0, i)), ..st2 }
                } else if identity_matrix(matrix_bits@) && ins.len() > 0 {
                    drop_alias(st, a2, op.output, ins[0])
                } else {
                    keep(st, i, ins, out, Seq::empty(), a2)
                }
            },
            PassFx::MaskApply { mode, inverted } => {
                if noop_mask(mode, inverted) && ins.len() > 0 {
                    drop_alias(st, a2, op.output, ins[0])
                } else {
                    keep(st, i, ins, out, Seq::empty(), a2)
                }
            },
            PassFx::DropShadow { .. } => keep(st, i, ins, out, Seq::empty(), a2),
        },
        OpKind::Composite { ops: cs, .. } => {
            let (cs2, a3) = canon_comp(a2, cs@, cs@.len() as int);
            if cs2.len() == 0 {
                FuseV { alias: a3, ..st }
            } else {
                let st2 = keep(st, i, ins, out, cs2, a3);
                match reset_target(ops, cs2) {
                    Some(pi) => FuseV { resets: st2.resets.push((st.rebuilt.len() as int, pi)), ..st2 },
                    None => st2,
                }
            }
        },
        _ => keep(st, i, ins, out, Seq::empty(), a2),
    }
}

/// Identity alias table over `n` surfaces.
pub open spec fn identity_alias(n: nat) -> Seq<SurfaceId> {
    Seq::new(n, |i: int| SurfaceId(i as u32))
}

/// Rebuild state after the first `k` ops.
pub open spec fn fuse_upto(ops: Seq<Op>, n: nat, k: int) -> FuseV
    decreases k,
{
    if k <= 0 {
        FuseV { alias: identity_alias(n), rebuilt: Seq::empty(), rprod: Seq::new(n, |_i: int| None::<int>), mfolds: Seq::empty(), resets: Seq::empty() }
    } else {
        fuse_step(ops, k - 1, fuse_upto(ops, n, k - 1))
    }
}

/// A kept op's kind: the original's, with a composite's steps replaced by `comp`.
pub open spec fn kind_rebuilt(k: OpKind, orig: OpKind, comp: Seq<CompositeOp>) -> bool {
    match orig {
        OpKind::Composite { clear_to_transparent, .. } => k matches OpKind::Composite { clear_to_transparent: c2, ops } && c2 == clear_to_transparent && ops@ == comp,
        _ => k == orig,
    }
}

/// The kept ops carry out the rebuilt views of `orig`, numbered in order.
pub open spec fn rebuilt_ok(ops: Seq<Op>, rv: Seq<RebuiltV>, orig: Seq<Op>) -> bool {
    &&& ops.len() == rv.len()
    &&& forall|j: int| 0 <= j < ops.len() ==> {
        &&& (#[trigger] ops[j]).inputs@ == rv[j].inputs
        &&& ops[j].output == rv[j].output
        &&& 0 <= rv[j].src < orig.len()
        &&& kind_rebuilt(ops[j].kind, orig[rv[j].src].kind, rv[j].comp)
    }
}

fn canon_inputs(ins: &Vec<SurfaceId>, alias_of: &mut Vec<SurfaceId>) -> (r: Vec<SurfaceId>)
    requires
        alias_ok(old(alias_of)@),
        forall|j: int| 0 <= j < ins@.len() ==> (#[trigger] ins@[j]).0 < old(alias_of)@.len(),
    ensures
        (r@, final(alias_of)@) == canon_all(old(alias_of)@, ins@, ins@.len() as int),
        alias_ok(final(alias_of)@),
        final(alias_of)@.len() == old(alias_of)@.len(),
        forall|j: int| 0 <= j < r@.len() ==> (#[trigger] r@[j]).0 < old(alias_of)@.len(),
{
    let mut r: Vec<SurfaceId> = Vec::new();
    let mut k: usize = 0;
    while k < ins.len()
        invariant
            k <= ins@.len(),
            alias_ok(alias_of@),
            alias_of@.len() == old(alias_of)@.len(),
            forall|j: int| 0 <= j < ins@.len() ==> (#[trigger] ins@[j]).0 < old(alias_of)@.len(),
            (r@, alias_of@) == canon_all(old(alias_of)@, ins@, k as int),
            forall|j: int| 0 <= j < r@.len() ==> (#[trigger] r@[j]).0 < old(alias_of)@.len(),
        decreases ins@.len() - k,
    {
        let c = canon_surface(ins[k], alias_of);
        r.push(c);
        k = k + 1;
    }
    r
}

fn canon_step_exec(c: CompositeOp, alias_of: &mut Vec<SurfaceId>) -> (r: CompositeOp)
    requires
        alias_ok(old(alias_of)@),
        step_in(c, old(alias_of)@.len() as int),
    ensures
        (r, final(alias_of)@) == canon_step(old(alias_of)@, c),
        alias_ok(final(alias_of)@),
        final(alias_of)@.len() == old(alias_of)@.len(),
        step_in(r, old(alias_of)@.len() as int),
{
    match c {
        CompositeOp::Over { src, opacity_bits, blend } => {
            let s2 = canon_surface(src, alias_of);
            CompositeOp::Over { src: s2, opacity_bits, blend }
        },
        CompositeOp::Crossfade { a, b, t_bits } => {
            let a2 = canon_surface(a, alias_of);
            let b2 = canon_surface(b, alias_of);
            CompositeOp::Crossfade { a: a2, b: b2, t_bits }
        },
        CompositeOp::Wipe { a, b, t_bits, dir, soft_edge_bits } => {
            let a2 = canon_surface(a, alias_of);
            let b2 = canon_surface(b, alias_of);
            CompositeOp::Wipe { a: a2, b: b2, t_bits, dir, soft_edge_bits }
        },
        CompositeOp::Slide { a, b, t_bits, dir, push } => {
            let a2 = canon_surface(a, alias_of);
            let b2 = canon_surface(b, alias_of);
            CompositeOp::Slide { a: a2, b: b2, t_bits, dir, push }
        },
        CompositeOp::Zoom { a, b, t_bits, origin_x_bits, origin_y_bits, from_scale_bits } => {
            let a2 = canon_surface(a, alias_of);
            let b2 = canon_surface(b, alias_of);
            CompositeOp::Zoom { a: a2, b: b2, t_bits, origin_x_bits, origin_y_bits, from_scale_bits }
        },
        CompositeOp::Iris { a, b, t_bits, origin_x_bits, origin_y_bits, shape, soft_edge_bits } => {
            let a2 = canon_surface(a, alias_of);
            let b2 = canon_surface(b, alias_of);
            CompositeOp::Iris { a: a2, b: b2, t_bits, origin_x_bits, origin_y_bits, shape, soft_edge_bits }
        },
    }
}

fn canon_steps(cs: &Vec<CompositeOp>, alias_of: &mut Vec<SurfaceId>) -> (r: Vec<CompositeOp>)
    requires
        alias_ok(old(alias_of)@),
        forall|j: int| 0 <= j < cs@.len() ==> step_in(#[trigger] cs@[j], old(alias_of)@.len() as int),
    ensures
        (r@, final(alias_of)@) == canon_comp(old(alias_of)@, cs@, cs@.len() as int),
        alias_ok(final(alias_of)@),
        final(alias_of)@.len() == old(alias_of)@.len(),
        forall|j: int| 0 <= j < r@.len() ==> step_in(#[trigger] r@[j], old(alias_of)@.len() as int),
{
    let mut r: Vec<CompositeOp> = Vec::new();
    let mut k: usize = 0;
    while k < cs.len()
        invariant
            k <= cs@.len(),
            alias_ok(alias_of@),
            alias_of@.len() == old(alias_of)@.len(),
            forall|j: int| 0 <= j < cs@.len() ==> step_in(#[trigger] cs@[j], old(alias_of)@.len() as int),
            (r@, alias_of@) == canon_comp(old(alias_of)@, cs@, k as int),
            forall|j: int| 0 <= j < r@.len() ==> step_in(#[trigger] r@[j], old(alias_of)@.len() as int),
        decreases cs@.len() - k,
    {
        let c = canon_step_exec(cs[k], alias_of);
        r.push(c);
        k = k + 1;
    }
    r
}

/// The steps of a composite kind (none for other kinds).
pub open spec fn comp_of(k: OpKind) -> Seq<CompositeOp> {
    match k {
        OpKind::Composite { ops, .. } => ops@,
        _ => Seq::empty(),
    }
}

fn copy_kind(k: &OpKind) -> (r: OpKind)
    ensures
        kind_rebuilt(r, *k, comp_of(*k)),
{
    match k {
        OpKind::Draw { unit, leaves_start, leaves_end, clear_to_transparent, transform_post_bits, opacity_mul_bits } => OpKind::Draw {
            unit: *unit, leaves_start: *leaves_start, leaves_end: *leaves_end, clear_to_transparent: *clear_to_transparent,
            transform_post_bits: *transform_post_bits, opacity_mul_bits: *opacity_mul_bits,
        },
        OpKind::Pass { fx } => OpKind::Pass { fx: *fx },
        OpKind::MaskGen { source } => OpKind::MaskGen { source: *source },
        OpKind::Composite { clear_to_transparent, ops } => {
            let mut v: Vec<CompositeOp> = Vec::new();
            let mut i: usize = 0;
            while i < ops.len()
                invariant
                    i <= ops@.len(),
                    v@ == ops@.subrange(0, i as int),
                decreases ops@.len() - i,
            {
                v.push(ops[i]);
                i = i + 1;
                assert(v@ =~= ops@.subrange(0, i as int));
            }
            assert(v@ =~= ops@);
            OpKind::Composite { clear_to_transparent: *clear_to_transparent, ops: v }
        },
    }
}

/// `Option<usize>` entries as `Option<int>`.
pub open spec fn opt_view(v: Seq<Option<usize>>) -> Seq<Option<int>> {
    Seq::new(v.len(), |j: int| match v[j] { Some(x) => Some(x as int), None => None::<int> })
}

/// The executable rebuild state stands for `st`.
pub open spec fn state_ok(
    ops: Seq<Op>, n: int, st: FuseV, alias: Seq<SurfaceId>, rebuilt: Seq<Op>, rsrc: Seq<usize>, rprod: Seq<Option<usize>>,
    mfolds: Seq<(usize, usize)>, resets: Seq<(usize, usize)>, lw: Seq<Option<OpId>>,
) -> bool {
    &&& alias == st.alias
    &&& alias_ok(alias)
    &&& alias.len() == n
    &&& rebuilt_ok(rebuilt, st.rebuilt, ops)
    &&& rsrc.len() == st.rebuilt.len()
    &&& forall|j: int| 0 <= j < rsrc.len() ==> #[trigger] rsrc[j] as int == st.rebuilt[j].src
    &&& opt_view(rprod) == st.rprod
    &&& rprod.len() == n
    &&& forall|s: int| 0 <= s < n && (#[trigger] rprod[s]) is Some ==> rprod[s]->0 < rebuilt.len()
    &&& pairs_view(mfolds) == st.mfolds
    &&& pairs_view(resets) == st.resets
    &&& deps_ok(rebuilt)
    &&& last_write_ok(rebuilt, lw)
    &&& surfaces_in(rebuilt, n)
    &&& lw.len() == n
}

/// Facts about the plan that every rebuild step reads.
pub open spec fn pass_inputs_ok(ops: Seq<Op>, uc: Seq<u32>, pr: Seq<Option<usize>>) -> bool {
    &&& ops.len() <= 0x1_0000_0000
    &&& uc.len() <= 0x1_0000_0000
    &&& plan_surfaces_in(ops, uc.len() as int)
    &&& pr.len() == uc.len()
    &&& forall|s: int| 0 <= s < uc.len() ==> #[trigger] uc[s] == use_count(ops, s)
    &&& forall|s: int| 0 <= s < pr.len() ==> #[trigger] pr[s] == (match first_writer(ops, s, ops.len() as int) {
        Some(p) => Some(p as usize),
        None => None::<usize>,
    })
}

fn fuse_keep(
    ops: &Vec<Op>, i: usize, n: usize, Ghost(st): Ghost<FuseV>, ins: Vec<SurfaceId>, out: SurfaceId, kind: OpKind, Ghost(comp): Ghost<Seq<CompositeOp>>,
    alias_of: &mut Vec<SurfaceId>, rebuilt: &mut Vec<Op>, rsrc: &mut Vec<usize>, rprod: &mut Vec<Option<usize>>,
    mfolds: &mut Vec<(usize, usize)>, resets: &mut Vec<(usize, usize)>, lw: &mut Vec<Option<OpId>>,
)
    requires
        i < ops@.len(),
        ops@.len() <= 0x1_0000_0000,
        n <= 0x1_0000_0000,
        old(rebuilt)@.len() <= i,
        out.0 < n,
        forall|j: int| 0 <= j < ins@.len() ==> (#[trigger] ins@[j]).0 < n,
        kind_rebuilt(kind, ops@[i as int].kind, comp),
        state_ok(ops@, n as int, st, old(alias_of)@, old(rebuilt)@, old(rsrc)@, old(rprod)@, old(mfolds)@, old(resets)@, old(lw)@),
    ensures
        final(rebuilt)@.len() == old(rebuilt)@.len() + 1,
        final(alias_of)@ == old(alias_of)@,
        final(mfolds)@ == old(mfolds)@,
        final(resets)@ == old(resets)@,
        state_ok(ops@, n as int, keep(st, i as int, ins@, out, comp, old(alias_of)@), final(alias_of)@, final(rebuilt)@, final(rsrc)@,
            final(rprod)@, final(mfolds)@, final(resets)@, final(lw)@),
{
    let ghost st2 = keep(st, i as int, ins@, out, comp, alias_of@);
    let ghost rb0 = rebuilt@;
    let j = rebuilt.len();
    push_op(rebuilt, lw, kind, ins, out);
    rsrc.push(i);
    rprod.set(out.0 as usize, Some(j));
    proof {
        assert(opt_view(rprod@) =~= st2.rprod);
        assert(rebuilt@.subrange(0, j as int) == rb0);
        assert forall|q: int| 0 <= q < rebuilt@.len() implies {
            &&& (#[trigger] rebuilt@[q]).inputs@ == st2.rebuilt[q].inputs
            &&& rebuilt@[q].output == st2.rebuilt[q].output
            &&& 0 <= st2.rebuilt[q].src < ops@.len()
            &&& kind_rebuilt(rebuilt@[q].kind, ops@[st2.rebuilt[q].src].kind, st2.rebuilt[q].comp)
        } by {
            if q < j {
                assert(rebuilt@[q] == rb0[q]);
            }
        }
        assert forall|q: int| 0 <= q < rsrc@.len() implies #[trigger] rsrc@[q] as int == st2.rebuilt[q].src by {}
        assert forall|s: int| 0 <= s < n && (#[trigger] rprod@[s]) is Some implies rprod@[s]->0 < rebuilt@.len() by {}
    }
}

fn fuse_pass(
    ops: &Vec<Op>, i: usize, uc: &Vec<u32>, Ghost(st): Ghost<FuseV>, fx: PassFx, ins: Vec<SurfaceId>, out: SurfaceId,
    alias_of: &mut Vec<SurfaceId>, rebuilt: &mut Vec<Op>, rsrc: &mut Vec<usize>, rprod: &mut Vec<Option<usize>>,
    mfolds: &mut Vec<(usize, usize)>, resets: &mut Vec<(usize, usize)>, lw: &mut Vec<Option<OpId>>,
)
    requires
        i < ops@.len(),
        ops@.len() <= 0x1_0000_0000,
        uc@.len() <= 0x1_0000_0000,
        ops@[i as int].kind == (OpKind::Pass { fx }),
        ops@[i as int].output.0 < uc@.len(),
        forall|s: int| 0 <= s < uc@.len() ==> #[trigger] uc@[s] == use_count(ops@, s),
        old(rebuilt)@.len() <= i,
        out.0 < uc@.len(),
        forall|j: int| 0 <= j < ins@.len() ==> (#[trigger] ins@[j]).0 < uc@.len(),
        state_ok(ops@, uc@.len() as int, st, old(alias_of)@, old(rebuilt)@, old(rsrc)@, old(rprod)@, old(mfolds)@, old(resets)@, old(lw)@),
    ensures
        final(rebuilt)@.len() <= i + 1,
        ({
            let op = ops@[i as int];
            let st_a = FuseV { alias: old(alias_of)@, ..st };
            let r = match fx {
                PassFx::Blur { radius_px, sigma_bits } => {
                    if (radius_px == 0 || f32_is_zero(sigma_bits)) && ins@.len() > 0 {
                        drop_alias(st, old(alias_of)@, op.output, ins@[0])
                    } else {
                        keep(st, i as int, ins@, out, Seq::empty(), old(alias_of)@)
                    }
                },
                PassFx::ColorMatrix { matrix_bits } => {
                    if ins@.len() > 0 && matrix_fold_target(ops@, st, ins@[0]) is Some {
                        let st2 = drop_alias(st, old(alias_of)@, op.output, ins@[0]);
                        FuseV { mfolds: st2.mfolds.push((matrix_fold_target(ops@, st, ins@[0])->0, i as int)), ..st2 }
                    } else if identity_matrix(matrix_bits@) && ins@.len() > 0 {
                        drop_alias(st, old(alias_of)@, op.output, ins@[0])
                    } else {
                        keep(st, i as int, ins@, out, Seq::empty(), old(alias_of)@)
                    }
                },
                PassFx::MaskApply { mode, inverted } => {
                    if noop_mask(mode, inverted) && ins@.len() > 0 {
                        drop_alias(st, old(alias_of)@, op.output, ins@[0])
                    } else {
                        keep(st, i as int, ins@, out, Seq::empty(), old(alias_of)@)
                    }
                },
                PassFx::DropShadow { .. } => keep(st, i as int, ins@, out, Seq::empty(), old(alias_of)@),
            };
            state_ok(ops@, uc@.len() as int, r, final(alias_of)@, final(rebuilt)@, final(rsrc)@, final(rprod)@, final(mfolds)@, final(resets)@, final(lw)@)
        }),
{
    let ghost n = uc@.len() as int;
    let output = ops[i].output;
    let mut drop_to: Option<SurfaceId> = None;
    let mut folded: Option<usize> = None;
    match fx {
        PassFx::Blur { radius_px, sigma_bits } => {
            if (radius_px == 0 || sigma_bits == 0 || sigma_bits == 0x8000_0000u32) && ins.len() > 0 {
                drop_to = Some(ins[0]);
            }
        },
        PassFx::ColorMatrix { matrix_bits } => {
            if ins.len() > 0 {
                let src = ins[0];
                if uc[src.0 as usize] == 1 {
                    match rprod[src.0 as usize] {
                        Some(pi) => {
                            let oi = rsrc[pi];
                            let is_m = match &ops[oi].kind {
                                OpKind::Pass { fx: PassFx::ColorMatrix { .. } } => true,
                                _ => false,
                            };
                            if is_m {
                                folded = Some(pi);
                                drop_to = Some(src);
                            }
                        },
                        None => {},
                    }
                }
                assert((folded is Some) == (matrix_fold_target(ops@, st, ins@[0]) is Some));
                assert(folded matches Some(p) ==> p as int == matrix_fold_target(ops@, st, ins@[0])->0);
            }
            if folded.is_none() && is_identity_color_matrix(&matrix_bits) && ins.len() > 0 {
                drop_to = Some(ins[0]);
            }
        },
        PassFx::MaskApply { mode, inverted } => {
            if is_noop_mask_apply(mode, inverted) && ins.len() > 0 {
                drop_to = Some(ins[0]);
            }
        },
        PassFx::DropShadow { .. } => {},
    }
    match drop_to {
        Some(src) => {
            if let Some(pi) = folded {
                mfolds.push((pi, i));
            }
            alias_surface(output, src, alias_of);
            proof {
                assert(pairs_view(mfolds@) =~= (if folded is Some { st.mfolds.push((folded->0 as int, i as int)) } else { st.mfolds }));
            }
        },
        None => {
            let ghost k0 = ops@[i as int].kind;
            let kind = OpKind::Pass { fx };
            fuse_keep(ops, i, uc.len(), Ghost(st), ins, out, kind, Ghost(Seq::empty()), alias_of, rebuilt, rsrc, rprod, mfolds, resets, lw);
        },
    }
}

#[verifier::rlimit(100)]
#[verifier::spinoff_prover]
fn fuse_composite(
    ops: &Vec<Op>, i: usize, uc: &Vec<u32>, pr: &Vec<Option<usize>>, Ghost(st): Ghost<FuseV>, ins: Vec<SurfaceId>, out: SurfaceId,
    alias_of: &mut Vec<SurfaceId>, rebuilt: &mut Vec<Op>, rsrc: &mut Vec<usize>, rprod: &mut Vec<Option<usize>>,
    mfolds: &mut Vec<(usize, usize)>, resets: &mut Vec<(usize, usize)>, lw: &mut Vec<Option<OpId>>,
)
    requires
        i < ops@.len(),
        pass_inputs_ok(ops@, uc@, pr@),
        ops@[i as int].kind is Composite,
        old(rebuilt)@.len() <= i,
        out.0 < uc@.len(),
        forall|j: int| 0 <= j < ins@.len() ==> (#[trigger] ins@[j]).0 < uc@.len(),
        state_ok(ops@, uc@.len() as int, st, old(alias_of)@, old(rebuilt)@, old(rsrc)@, old(rprod)@, old(mfolds)@, old(resets)@, old(lw)@),
    ensures
        final(rebuilt)@.len() <= i + 1,
        ({
            let cs = comp_of(ops@[i as int].kind);
            let (cs2, a3) = canon_comp(old(alias_of)@, cs, cs.len() as int);
            let r = if cs2.len() == 0 {
                FuseV { alias: a3, ..st }
            } else {
                let st2 = keep(st, i as int, ins@, out, cs2, a3);
                match reset_target(ops@, cs2) {
                    Some(pi) => FuseV { resets: st2.resets.push((st.rebuilt.len() as int, pi)), ..st2 },
                    None => st2,
                }
            };
            state_ok(ops@, uc@.len() as int, r, final(alias_of)@, final(rebuilt)@, final(rsrc)@, final(rprod)@, final(mfolds)@, final(resets)@, final(lw)@)
        }),
{
    let ghost n = uc@.len() as int;
    let op = &ops[i];
    match &op.kind {
        OpKind::Composite { clear_to_transparent, ops: cs } => {
            assert(comp_in(ops@[i as int].kind, n));
            let cs2 = canon_steps(cs, alias_of);
            if cs2.len() > 0 {
                let mut reset: Option<usize> = None;
                if cs2.len() == 1 {
                    match cs2[0] {
                        CompositeOp::Over { src, blend, .. } => {
                            assert(step_in(cs2@[0], n));
                            if is_normal(blend) && uc[src.0 as usize] == 1 {
                                proof {
                                    lemma_first_writer(ops@, src.0 as int, ops@.len() as int);
                                }
                                reset = pr[src.0 as usize];
                            }
                        },
                        _ => {},
                    }
                }
                assert(reset == match reset_target(ops@, cs2@) { Some(p) => Some(p as usize), None => None::<usize> }) by {
                    lemma_first_writer(ops@, 0, 0);
                }
                if let Some(pi) = reset {
                    resets.push((rebuilt.len(), pi));
                }
                proof {
                    assert(pairs_view(resets@) =~= (match reset_target(ops@, cs2@) {
                        Some(p) => st.resets.push((st.rebuilt.len() as int, p)),
                        None => st.resets,
                    }));
                }
                let ghost st_r = FuseV { alias: alias_of@, resets: pairs_view(resets@), ..st };
                let kind = OpKind::Composite { clear_to_transparent: *clear_to_transparent, ops: cs2 };
                fuse_keep(ops, i, uc.len(), Ghost(st_r), ins, out, kind, Ghost(cs2@), alias_of, rebuilt, rsrc, rprod, mfolds, resets, lw);
            }
        },
        _ => {},
    }
}

fn fuse_one(
    ops: &Vec<Op>, i: usize, uc: &Vec<u32>, pr: &Vec<Option<usize>>, Ghost(st): Ghost<FuseV>,
    alias_of: &mut Vec<SurfaceId>, rebuilt: &mut Vec<Op>, rsrc: &mut Vec<usize>, rprod: &mut Vec<Option<usize>>,
    mfolds: &mut Vec<(usize, usize)>, resets: &mut Vec<(usize, usize)>, lw: &mut Vec<Option<OpId>>,
)
    requires
        i < ops@.len(),
        pass_inputs_ok(ops@, uc@, pr@),
        old(rebuilt)@.len() <= i,
        state_ok(ops@, uc@.len() as int, st, old(alias_of)@, old(rebuilt)@, old(rsrc)@, old(rprod)@, old(mfolds)@, old(resets)@, old(lw)@),
    ensures
        final(rebuilt)@.len() <= i + 1,
        state_ok(ops@, uc@.len() as int, fuse_step(ops@, i as int, st), final(alias_of)@, final(rebuilt)@, final(rsrc)@, final(rprod)@,
            final(mfolds)@, final(resets)@, final(lw)@),
{
    let ghost n = uc@.len() as int;
    let op = &ops[i];
    assert(surfaces_in(ops@, n));
    assert(op.output.0 < n);
    assert(forall|j: int| 0 <= j < op.inputs@.len() ==> (#[trigger] op.inputs@[j]).0 < n);
    let ins = canon_inputs(&op.inputs, alias_of);
    let out = canon_surface(op.output, alias_of);
    let ghost st_a = FuseV { alias: alias_of@, ..st };
    match &op.kind {
        OpKind::Pass { fx } => {
            fuse_pass(ops, i, uc, Ghost(st_a), *fx, ins, out, alias_of, rebuilt, rsrc, rprod, mfolds, resets, lw);
        },
        OpKind::Composite { .. } => {
            fuse_composite(ops, i, uc, pr, Ghost(st_a), ins, out, alias_of, rebuilt, rsrc, rprod, mfolds, resets, lw);
        },
        _ => {
            let kind = copy_kind(&op.kind);
            fuse_keep(ops, i, uc.len(), Ghost(st_a), ins, out, kind, Ghost(Seq::empty()), alias_of, rebuilt, rsrc, rprod, mfolds, resets, lw);
        },
    }
}

/// What fusion implies for the renderer's floating-point parameters, and where each kept op
/// comes from.
#[derive(Debug, Clone)]
pub struct FuseReport {
    /// `(draw, composite)` original op indices: the draw's opacity multiplier absorbs the
    /// composite's opacity (in this order, starting from `1.0`).
    pub opacity_folds: Vec<(usize, usize)>,
    /// Per kept op: the original op it comes from.
    pub source_ops: Vec<usize>,
    /// `(kept op, original op)`: the kept colour matrix becomes `original * kept`, in order.
    pub matrix_folds: Vec<(usize, usize)>,
    /// `(kept composite, original op)`: the composite's over opacity becomes `1.0` when the
    /// original op's absorbed multiplier is not `1.0`.
    pub over_resets: Vec<(usize, usize)>,
}

/// Fuse a plan: drop passes that change nothing (blur of radius or sigma `0`, identity
/// colour matrix, non-inverted stencil at threshold `<= 0`) and colour matrices that fold into
/// the matrix pass producing their single-use input, making their outputs stand for their
/// inputs; drop composites without steps; rewrite the kept ops and the roots over canonical
/// surfaces; and recompute every dependency from the last writers (see [`fuse_step`]).
/// Opacity folds into single-use draws are decided here and reported. The fused plan never has
/// more ops than the original, and every composite it keeps has steps.
pub fn fuse_plan(plan: &mut RenderPlan) -> (rep: FuseReport)
    requires
        old(plan).ops@.len() <= 0x1_0000_0000,
        old(plan).surfaces@.len() <= 0x1_0000_0000,
        plan_surfaces_in(old(plan).ops@, old(plan).surfaces@.len() as int),
        forall|j: int| 0 <= j < old(plan).roots@.len() ==> (#[trigger] old(plan).roots@[j]).0 < old(plan).surfaces@.len(),
    ensures
        ({
            let ops = old(plan).ops@;
            let n = old(plan).surfaces@.len();
            let st = fuse_upto(ops, n, ops.len() as int);
            &&& final(plan).surfaces@ == old(plan).surfaces@
            &&& rebuilt_ok(final(plan).ops@, st.rebuilt, ops)
            &&& deps_ok(final(plan).ops@)
            &&& surfaces_in(final(plan).ops@, n as int)
            &&& final(plan).roots@ == canon_all(st.alias, old(plan).roots@, old(plan).roots@.len() as int).0
            &&& pairs_view(rep.opacity_folds@) == opacity_folds(ops, ops.len() as int)
            &&& rep.source_ops@.len() == st.rebuilt.len()
            &&& forall|j: int| 0 <= j < rep.source_ops@.len() ==> #[trigger] rep.source_ops@[j] as int == st.rebuilt[j].src
            &&& pairs_view(rep.matrix_folds@) == st.mfolds
            &&& pairs_view(rep.over_resets@) == st.resets
        }),
        final(plan).ops@.len() <= old(plan).ops@.len(),
        forall|j: int| 0 <= j < final(plan).ops@.len() ==>
            ((#[trigger] final(plan).ops@[j]).kind matches OpKind::Composite { ops: cs, .. } ==> cs@.len() > 0),
{
    let n = plan.surfaces.len();
    let ghost ops0 = plan.ops@;
    let uc = surface_use_counts(&plan.ops, n);
    let pr = first_producers(&plan.ops, n);
    let folds = fold_opacities(&plan.ops, &uc, &pr);
    let mut alias_of: Vec<SurfaceId> = Vec::new();
    let mut rprod: Vec<Option<usize>> = Vec::new();
    let mut lw: Vec<Option<OpId>> = Vec::new();
    let mut k: usize = 0;
    while k < n
        invariant
            k <= n,
            n <= 0x1_0000_0000,
            alias_of@ == identity_alias(k as nat),
            rprod@ == Seq::new(k as nat, |_i: int| None::<usize>),
            lw@ == Seq::new(k as nat, |_i: int| None::<OpId>),
        decreases n - k,
    {
        alias_of.push(SurfaceId(k as u32));
        rprod.push(None);
        lw.push(None);
        k = k + 1;
        assert(alias_of@ =~= identity_alias(k as nat));
        assert(rprod@ =~= Seq::new(k as nat, |_i: int| None::<usize>));
        assert(lw@ =~= Seq::new(k as nat, |_i: int| None::<OpId>));
    }
    let mut rebuilt: Vec<Op> = Vec::new();
    let mut rsrc: Vec<usize> = Vec::new();
    let mut mfolds: Vec<(usize, usize)> = Vec::new();
    let mut resets: Vec<(usize, usize)> = Vec::new();
    proof {
        let st0 = fuse_upto(ops0, n as nat, 0);
        assert(opt_view(rprod@) =~= st0.rprod);
        assert(pairs_view(mfolds@) =~= st0.mfolds);
        assert(pairs_view(resets@) =~= st0.resets);
        assert forall|s: int| 0 <= s < n implies #[trigger] lw@[s] == crate::compile::last_writer(rebuilt@, 0, SurfaceId(s as u32)) by {}
    }
    let mut i: usize = 0;
    while i < plan.ops.len()
        invariant
            i <= ops0.len(),
            plan.ops@ == ops0,
            n == plan.surfaces@.len(),
            uc@.len() == n,
            pass_inputs_ok(ops0, uc@, pr@),
            rebuilt@.len() <= i,
            state_ok(ops0, n as int, fuse_upto(ops0, n as nat, i as int), alias_of@, rebuilt@, rsrc@, rprod@, mfolds@, resets@, lw@),
        decreases ops0.len() - i,
    {
        fuse_one(&plan.ops, i, &uc, &pr, Ghost(fuse_upto(ops0, n as nat, i as int)),
            &mut alias_of, &mut rebuilt, &mut rsrc, &mut rprod, &mut mfolds, &mut resets, &mut lw);
        i = i + 1;
    }
    let roots = canon_inputs(&plan.roots, &mut alias_of);
    plan.ops = rebuilt;
    plan.roots = roots;
    proof {
        let k = ops0.len() as int;
        law_fusion_keeps_op_order(ops0, n as nat, k);
        law_fusion_drops_only_noops(ops0, n as nat, k);
        let st = fuse_upto(ops0, n as nat, k);
        assert forall|j: int| 0 <= j < plan.ops@.len() implies
            ((#[trigger] plan.ops@[j]).kind matches OpKind::Composite { ops: cs, .. } ==> cs@.len() > 0) by {
            assert(kind_rebuilt(plan.ops@[j].kind, ops0[st.rebuilt[j].src].kind, st.rebuilt[j].comp));
            if ops0[st.rebuilt[j].src].kind is Composite {
                assert(st.rebuilt[j].comp.len() > 0);
            }
        }
    }
    FuseReport { opacity_folds: folds, source_ops: rsrc, matrix_folds: mfolds, over_resets: resets }
}

/// One rebuild step keeps the ops kept so far and keeps at most op `i` after them.
proof fn lemma_fuse_step_rebuilt(ops: Seq<Op>, i: int, st: FuseV)
    requires
        0 <= i < ops.len(),
    ensures
        fuse_step(ops, i, st).rebuilt == st.rebuilt
            || (fuse_step(ops, i, st).rebuilt.len() == st.rebuilt.len() + 1
                && fuse_step(ops, i, st).rebuilt.drop_last() == st.rebuilt
                && fuse_step(ops, i, st).rebuilt.last().src == i),
{
    let r = fuse_step(ops, i, st).rebuilt;
    if r != st.rebuilt {
        assert(r.drop_last() =~= st.rebuilt);
    }
}

/// Fusion only removes and rewrites ops: the kept ops are the survivors of the original ops,
/// in their original order, so a fused plan never has more ops than the plan it came from.
pub proof fn law_fusion_keeps_op_order(ops: Seq<Op>, n: nat, k: int)
    requires
        0 <= k <= ops.len(),
    ensures
        fuse_upto(ops, n, k).rebuilt.len() <= k,
        forall|j: int| 0 <= j < fuse_upto(ops, n, k).rebuilt.len() ==> 0 <= #[trigger] fuse_upto(ops, n, k).rebuilt[j].src < k,
        forall|a: int, b: int| 0 <= a < b < fuse_upto(ops, n, k).rebuilt.len() ==>
            fuse_upto(ops, n, k).rebuilt[a].src < fuse_upto(ops, n, k).rebuilt[b].src,
    decreases k,
{
    if k > 0 {
        law_fusion_keeps_op_order(ops, n, k - 1);
        let st = fuse_upto(ops, n, k - 1);
        lemma_fuse_step_rebuilt(ops, k - 1, st);
        let r = fuse_upto(ops, n, k).rebuilt;
        assert(r == fuse_step(ops, k - 1, st).rebuilt);
        if r != st.rebuilt {
            assert forall|j: int| 0 <= j < r.len() - 1 implies #[trigger] r[j] == st.rebuilt[j] by {
                assert(r.drop_last()[j] == r[j]);
            }
        }
    }
}


/// An op that changes nothing: a blur of radius or sigma `0`, an identity colour matrix, a
/// mask application that keeps its source, or a composite without steps.
pub open spec fn noop_op(op: Op) -> bool {
    match op.kind {
        OpKind::Pass { fx } => match fx {
            PassFx::Blur { radius_px, sigma_bits } => radius_px == 0 || f32_is_zero(sigma_bits),
            PassFx::ColorMatrix { matrix_bits } => identity_matrix(matrix_bits@),
            PassFx::MaskApply { mode, inverted } => noop_mask(mode, inverted),
            PassFx::DropShadow { .. } => false,
        },
        OpKind::Composite { ops, .. } => ops@.len() == 0,
        _ => false,
    }
}

/// Op `i` was kept as one of the rebuilt ops.
pub open spec fn kept_op(rv: Seq<RebuiltV>, i: int) -> bool {
    exists|j: int| 0 <= j < rv.len() && (#[trigger] rv[j]).src == i
}

/// Op `i` is a colour matrix folded into the matrix pass before it.
pub open spec fn folded_op(ops: Seq<Op>, mfolds: Seq<(int, int)>, i: int) -> bool {
    is_matrix_pass(ops[i].kind) && exists|t: int| 0 <= t < mfolds.len() && (#[trigger] mfolds[t]).1 == i
}

proof fn lemma_canon_comp_len(alias: Seq<SurfaceId>, cs: Seq<CompositeOp>, k: int)
    requires
        0 <= k,
    ensures
        canon_comp(alias, cs, k).0.len() == k,
    decreases k,
{
    if k > 0 {
        lemma_canon_comp_len(alias, cs, k - 1);
    }
}

/// Fusion removes only ops that change nothing and colour matrices folded into the matrix pass
/// that produces their input; every composite it keeps still has steps.
pub proof fn law_fusion_drops_only_noops(ops: Seq<Op>, n: nat, k: int)
    requires
        0 <= k <= ops.len(),
    ensures
        forall|i: int| 0 <= i < k && !kept_op(fuse_upto(ops, n, k).rebuilt, i) ==>
            noop_op(#[trigger] ops[i]) || folded_op(ops, fuse_upto(ops, n, k).mfolds, i),
        forall|j: int| 0 <= j < fuse_upto(ops, n, k).rebuilt.len() && (ops[fuse_upto(ops, n, k).rebuilt[j].src].kind is Composite) ==>
            (#[trigger] fuse_upto(ops, n, k).rebuilt[j]).comp.len() > 0,
    decreases k,
{
    if k > 0 {
        law_fusion_drops_only_noops(ops, n, k - 1);
        let st = fuse_upto(ops, n, k - 1);
        let st2 = fuse_upto(ops, n, k);
        let i0 = k - 1;
        assert(st2 == fuse_step(ops, i0, st));
        lemma_fuse_step_rebuilt(ops, i0, st);
        let op = ops[i0];
        let (ins, a1) = canon_all(st.alias, op.inputs@, op.inputs@.len() as int);
        let (out, a2) = canon(a1, op.output);
        // The folds only grow.
        assert(st2.mfolds == st.mfolds || (st2.mfolds.len() == st.mfolds.len() + 1 && st2.mfolds.drop_last() == st.mfolds
            && st2.mfolds.last().1 == i0 && is_matrix_pass(op.kind))) by {
            if st2.mfolds != st.mfolds {
                assert(st2.mfolds.drop_last() =~= st.mfolds);
            }
        }
        assert forall|i: int| 0 <= i < k && !kept_op(st2.rebuilt, i) implies
            noop_op(#[trigger] ops[i]) || folded_op(ops, st2.mfolds, i) by {
            if i < i0 {
                if kept_op(st.rebuilt, i) {
                    let j = choose|j: int| 0 <= j < st.rebuilt.len() && (#[trigger] st.rebuilt[j]).src == i;
                    if st2.rebuilt != st.rebuilt {
                        assert(st2.rebuilt[j] == st2.rebuilt.drop_last()[j]);
                    }
                    assert(st2.rebuilt[j].src == i);
                }
                if folded_op(ops, st.mfolds, i) && st2.mfolds != st.mfolds {
                    let t = choose|t: int| 0 <= t < st.mfolds.len() && (#[trigger] st.mfolds[t]).1 == i;
                    assert(st2.mfolds[t] == st2.mfolds.drop_last()[t]);
                }
            } else {
                if st2.rebuilt != st.rebuilt {
                    assert(st2.rebuilt[st2.rebuilt.len() - 1].src == i0);
                }
                assert(st2.rebuilt == st.rebuilt);
                match op.kind {
                    OpKind::Composite { ops: cs, .. } => {
                        lemma_canon_comp_len(a2, cs@, cs@.len() as int);
                    },
                    _ => {},
                }
                if st2.mfolds != st.mfolds {
                    assert(st2.mfolds[st2.mfolds.len() - 1].1 == i0);
                }
            }
        }
        assert forall|j: int| 0 <= j < st2.rebuilt.len() && (ops[st2.rebuilt[j].src].kind is Composite) implies
            (#[trigger] st2.rebuilt[j]).comp.len() > 0 by {
            if j < st.rebuilt.len() {
                if st2.rebuilt != st.rebuilt {
                    assert(st2.rebuilt[j] == st2.rebuilt.drop_last()[j]);
                }
                assert(st.rebuilt[j].comp.len() > 0);
            }
        }
    }
}

} // verus!
