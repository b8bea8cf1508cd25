//! The plant genotype: grammar source text (the single source of truth),
//! materials and interpretation parameters, with its genetic operators.
//!
//! Fractional quantities are held in thousandths: an angle of `25_000` is
//! 25 degrees, a color channel of `1000` is full intensity, a mutation rate
//! of `150` is 0.15.
use vstd::prelude::*;
use rand_pcg::Pcg64;
use symbios::System;
use crate::grammar::{parse_accepts, parse_source, rebuilt_from, reconstruct_source};
use crate::random::{chance, draw_below, draw_bool, draw_u64};
use crate::text::{contains, has_infix, lines_of, split_lines, views};

verus! {

/// The operations on a compiled grammar whose strength is tuned by the
/// mutation rate (in thousandths): parametric perturbation of rule weights
/// and constants, structural rewriting of rule successors, and
/// recombination of two grammars (constants blended with weight `blend`,
/// thousandths, on `a`).
pub trait GrammarOperators {
    fn perturb(&self, system: &mut System, rng: &mut Pcg64, rate: u32);

    fn restructure(&self, system: &mut System, rng: &mut Pcg64, rate: u32);

    fn recombine(&self, a: &System, b: &System, rng: &mut Pcg64, blend: u32) -> Option<System>;
}

/// Material description of one slot; every field in thousandths.
#[derive(Clone, Copy, PartialEq, Eq, Structural, Debug)]
pub struct SerializableMaterial {
    pub base_r: u32,
    pub base_g: u32,
    pub base_b: u32,
    pub emission_r: u32,
    pub emission_g: u32,
    pub emission_b: u32,
    pub emission_strength: u32,
    pub roughness: u32,
    pub metallic: u32,
    pub uv_scale: u32,
}

impl Default for SerializableMaterial {
    fn default() -> (r: Self)
        ensures
            r == (SerializableMaterial {
                base_r: 1000,
                base_g: 1000,
                base_b: 1000,
                emission_r: 0,
                emission_g: 0,
                emission_b: 0,
                emission_strength: 0,
                roughness: 500,
                metallic: 0,
                uv_scale: 1000,
            }),
    {
        SerializableMaterial {
            base_r: 1000,
            base_g: 1000,
            base_b: 1000,
            emission_r: 0,
            emission_g: 0,
            emission_b: 0,
            emission_strength: 0,
            roughness: 500,
            metallic: 0,
            uv_scale: 1000,
        }
    }
}

/// A material bound to its slot id.
#[derive(Clone, Copy, PartialEq, Eq, Structural, Debug)]
pub struct MaterialSlot {
    pub slot: u8,
    pub material: SerializableMaterial,
}

pub open spec fn slots_unique(s: Seq<MaterialSlot>) -> bool {
    forall|i: int, j: int| 0 <= i < j < s.len() ==> #[trigger] s[i].slot != #[trigger] s[j].slot
}

pub open spec fn has_slot(s: Seq<MaterialSlot>, k: u8) -> bool {
    exists|i: int| 0 <= i < s.len() && #[trigger] s[i].slot == k
}

/// The material in slot `k` (meaningful when the slot is present).
pub open spec fn material_at(s: Seq<MaterialSlot>, k: u8) -> SerializableMaterial {
    s[choose|i: int| 0 <= i < s.len() && #[trigger] s[i].slot == k].material
}

/// Linear interpolation `x * t + y * (1 - t)` with `t` in thousandths,
/// rounded down.
pub open spec fn lerp(x: int, y: int, t: int) -> int {
    (x * t + y * (1000 - t)) / 1000
}

pub open spec fn mix(x: SerializableMaterial, y: SerializableMaterial, t: int) -> SerializableMaterial {
    SerializableMaterial {
        base_r: lerp(x.base_r as int, y.base_r as int, t) as u32,
        base_g: lerp(x.base_g as int, y.base_g as int, t) as u32,
        base_b: lerp(x.base_b as int, y.base_b as int, t) as u32,
        emission_r: lerp(x.emission_r as int, y.emission_r as int, t) as u32,
        emission_g: lerp(x.emission_g as int, y.emission_g as int, t) as u32,
        emission_b: lerp(x.emission_b as int, y.emission_b as int, t) as u32,
        emission_strength: lerp(x.emission_strength as int, y.emission_strength as int, t) as u32,
        roughness: lerp(x.roughness as int, y.roughness as int, t) as u32,
        metallic: lerp(x.metallic as int, y.metallic as int, t) as u32,
        uv_scale: lerp(x.uv_scale as int, y.uv_scale as int, t) as u32,
    }
}

/// The material of slot `k` in the blend of two palettes: both present gives
/// the interpolation, one present gives that one unchanged.
pub open spec fn blended_at(
    a: Seq<MaterialSlot>,
    b: Seq<MaterialSlot>,
    t: int,
    k: u8,
) -> SerializableMaterial {
    if has_slot(a, k) && has_slot(b, k) {
        mix(material_at(a, k), material_at(b, k), t)
    } else if has_slot(a, k) {
        material_at(a, k)
    } else {
        material_at(b, k)
    }
}

pub fn lerp_u32(x: u32, y: u32, t: u32) -> (r: u32)
    requires
        t <= 1000,
    ensures
        r == lerp(x as int, y as int, t as int),
{
    let hi: u64 = if x > y { x as u64 } else { y as u64 };
    let u: u64 = 1000 - t as u64;
    assert(x as u64 * t as u64 <= hi * 1000 && y as u64 * u <= hi * 1000) by (nonlinear_arith)
        requires
            x <= hi,
            y <= hi,
            t <= 1000,
            u <= 1000,
    ;
    assert(x as u64 * t as u64 + y as u64 * u <= hi * 1000) by (nonlinear_arith)
        requires
            x <= hi,
            y <= hi,
            t + u == 1000,
    ;
    let s: u64 = x as u64 * t as u64 + y as u64 * u;
    assert(s / 1000 <= hi) by (nonlinear_arith)
        requires
            s <= hi * 1000,
    ;
    (s / 1000) as u32
}

pub fn mix_materials(x: &SerializableMaterial, y: &SerializableMaterial, t: u32) -> (r: SerializableMaterial)
    requires
        t <= 1000,
    ensures
        r == mix(*x, *y, t as int),
{
    SerializableMaterial {
        base_r: lerp_u32(x.base_r, y.base_r, t),
        base_g: lerp_u32(x.base_g, y.base_g, t),
        base_b: lerp_u32(x.base_b, y.base_b, t),
        emission_r: lerp_u32(x.emission_r, y.emission_r, t),
        emission_g: lerp_u32(x.emission_g, y.emission_g, t),
        emission_b: lerp_u32(x.emission_b, y.emission_b, t),
        emission_strength: lerp_u32(x.emission_strength, y.emission_strength, t),
        roughness: lerp_u32(x.roughness, y.roughness, t),
        metallic: lerp_u32(x.metallic, y.metallic, t),
        uv_scale: lerp_u32(x.uv_scale, y.uv_scale, t),
    }
}

fn find_slot(s: &Vec<MaterialSlot>, k: u8) -> (r: Option<usize>)
    ensures
        r matches Some(i) ==> i < s@.len() && s@[i as int].slot == k,
        r is None ==> !has_slot(s@, k),
{
    let mut i: usize = 0;
    while i < s.len()
        invariant
            i <= s@.len(),
            forall|j: int| 0 <= j < i ==> #[trigger] s@[j].slot != k,
        decreases s@.len() - i,
    {
        if s[i].slot == k {
            return Some(i);
        }
        i = i + 1;
    }
    None
}

proof fn lemma_material_at(s: Seq<MaterialSlot>, i: int)
    requires
        slots_unique(s),
        0 <= i < s.len(),
    ensures
        has_slot(s, s[i].slot),
        material_at(s, s[i].slot) == s[i].material,
{
    let k = s[i].slot;
    assert(has_slot(s, k));
    let c = choose|j: int| 0 <= j < s.len() && #[trigger] s[j].slot == k;
    if c != i {
        if c < i {
            assert(s[c].slot != s[i].slot);
        } else {
            assert(s[i].slot != s[c].slot);
        }
    }
}

/// Blends two palettes slot by slot with weight `t` (thousandths) on `a`:
/// slots in both are interpolated, slots in one are copied unchanged.
pub fn blend_materials(a: &Vec<MaterialSlot>, b: &Vec<MaterialSlot>, t: u32) -> (r: Vec<MaterialSlot>)
    requires
        slots_unique(a@),
        slots_unique(b@),
        t <= 1000,
    ensures
        slots_unique(r@),
        forall|k: u8| has_slot(r@, k) <==> has_slot(a@, k) || has_slot(b@, k),
        forall|i: int| 0 <= i < r@.len() ==> #[trigger] r@[i].material == blended_at(a@, b@, t as int, r@[i].slot),
{
    let mut out: Vec<MaterialSlot> = Vec::new();
    let mut i: usize = 0;
    while i < a.len()
        invariant
            slots_unique(a@),
            slots_unique(b@),
            t <= 1000,
            i <= a@.len(),
            out@.len() == i,
            forall|q: int| 0 <= q < i ==> (#[trigger] out@[q]).slot == a@[q].slot,
            forall|q: int| 0 <= q < i ==> #[trigger] out@[q].material == blended_at(a@, b@, t as int, out@[q].slot),
        decreases a@.len() - i,
    {
        let entry = a[i];
        proof {
            lemma_material_at(a@, i as int);
        }
        match find_slot(b, entry.slot) {
            Some(j) => {
                proof {
                    lemma_material_at(b@, j as int);
                }
                let m = mix_materials(&entry.material, &b[j].material, t);
                out.push(MaterialSlot { slot: entry.slot, material: m });
            },
            None => {
                out.push(entry);
            },
        }
        i = i + 1;
    }
    assert(slots_unique(out@));
    assert(forall|k: u8| has_slot(out@, k) <==> has_slot(a@, k)) by {
        assert forall|k: u8| has_slot(out@, k) implies has_slot(a@, k) by {
            let q = choose|q: int| 0 <= q < out@.len() && #[trigger] out@[q].slot == k;
            assert(a@[q].slot == k);
        }
        assert forall|k: u8| has_slot(a@, k) implies has_slot(out@, k) by {
            let q = choose|q: int| 0 <= q < a@.len() && #[trigger] a@[q].slot == k;
            assert(out@[q].slot == k);
        }
    }
    let ghost first = out@;
    let mut j: usize = 0;
    while j < b.len()
        invariant
            slots_unique(a@),
            slots_unique(b@),
            slots_unique(out@),
            t <= 1000,
            j <= b@.len(),
            first.len() <= out@.len(),
            forall|q: int| 0 <= q < first.len() ==> out@[q] == #[trigger] first[q],
            forall|k: u8| has_slot(first, k) <==> has_slot(a@, k),
            forall|k: u8|
                has_slot(out@, k) <==> (has_slot(a@, k) || (exists|q: int|
                    0 <= q < j && #[trigger] b@[q].slot == k)),
            forall|q: int| 0 <= q < out@.len() ==> #[trigger] out@[q].material == blended_at(a@, b@, t as int, out@[q].slot),
        decreases b@.len() - j,
    {
        let entry = b[j];
        let ghost before = out@;
        match find_slot(a, entry.slot) {
            Some(_) => {},
            None => {
                proof {
                    lemma_material_at(b@, j as int);
                    assert(!has_slot(before, entry.slot));
                }
                out.push(entry);
                assert(slots_unique(out@)) by {
                    assert forall|x: int, y: int| 0 <= x < y < out@.len() implies #[trigger] out@[x].slot
                        != #[trigger] out@[y].slot by {
                        if y == out@.len() - 1 {
                            assert(before[x].slot == out@[x].slot);
                        } else {
                            assert(before[x].slot != before[y].slot);
                        }
                    }
                }
                assert(has_slot(out@, entry.slot)) by {
                    assert(out@[out@.len() - 1].slot == entry.slot);
                }
            },
        }
        assert forall|k: u8| has_slot(out@, k) <==> (has_slot(a@, k) || (exists|q: int|
            0 <= q < j + 1 && #[trigger] b@[q].slot == k)) by {
            if has_slot(out@, k) && !has_slot(before, k) {
                let x = choose|x: int| 0 <= x < out@.len() && #[trigger] out@[x].slot == k;
                if x < before.len() {
                    assert(before[x].slot == k);
                }
                assert(b@[j as int].slot == k);
            }
            if exists|q: int| 0 <= q < j + 1 && #[trigger] b@[q].slot == k {
                let q = choose|q: int| 0 <= q < j + 1 && #[trigger] b@[q].slot == k;
                if q == j && !has_slot(a@, k) {
                    assert(out@[out@.len() - 1].slot == k);
                }
            }
            if has_slot(before, k) {
                let x = choose|x: int| 0 <= x < before.len() && #[trigger] before[x].slot == k;
                assert(out@[x].slot == k);
            }
        }
        j = j + 1;
    }
    assert forall|k: u8| has_slot(out@, k) <==> has_slot(a@, k) || has_slot(b@, k) by {
        if has_slot(b@, k) {
            let q = choose|q: int| 0 <= q < b@.len() && #[trigger] b@[q].slot == k;
            assert(0 <= q < j && b@[q].slot == k);
        }
    }
    out
}


/// Copies a palette entry by entry.
pub fn copy_materials(v: &Vec<MaterialSlot>) -> (r: Vec<MaterialSlot>)
    ensures
        r@ == v@,
{
    let mut out: Vec<MaterialSlot> = Vec::new();
    let mut i: usize = 0;
    while i < v.len()
        invariant
            i <= v@.len(),
            out@ == v@.take(i as int),
        decreases v@.len() - i,
    {
        out.push(v[i]);
        assert(v@.take(i + 1) =~= v@.take(i as int).push(v@[i as int]));
        i = i + 1;
    }
    assert(v@.take(v@.len() as int) =~= v@);
    out
}

/// A plant genotype: grammar source and the parameters that interpret it.
#[derive(Clone, Debug)]
pub struct PlantGenotype {
    /// Growth-phase grammar source: the single source of truth.
    pub source_code: String,
    /// Optional second-pass decomposition grammar (empty for none).
    pub finalization_code: String,
    /// Materials by slot id; each slot appears once.
    pub materials: Vec<MaterialSlot>,
    /// Number of derivation iterations.
    pub iterations: usize,
    /// Default turn angle, thousandths of a degree.
    pub angle: u32,
    /// Forward step size, thousandths.
    pub step: u32,
    /// Default branch width, thousandths.
    pub width: u32,
    /// Seed of stochastic rule selection.
    pub seed: u64,
}

pub struct GenotypeView {
    pub source_code: Seq<char>,
    pub finalization_code: Seq<char>,
    pub materials: Seq<MaterialSlot>,
    pub iterations: usize,
    pub angle: u32,
    pub step: u32,
    pub width: u32,
    pub seed: u64,
}

impl View for PlantGenotype {
    type V = GenotypeView;

    open spec fn view(&self) -> GenotypeView {
        GenotypeView {
            source_code: self.source_code@,
            finalization_code: self.finalization_code@,
            materials: self.materials@,
            iterations: self.iterations,
            angle: self.angle,
            step: self.step,
            width: self.width,
            seed: self.seed,
        }
    }
}

pub open spec fn clamp(v: int, lo: int, hi: int) -> int {
    if v < lo {
        lo
    } else if v > hi {
        hi
    } else {
        v
    }
}

/// `new` is `old` moved by at most `radius`, then clamped to `[lo, hi]`.
pub open spec fn shifted_within(old: int, new: int, radius: int, lo: int, hi: int) -> bool {
    exists|d: int| -radius <= d <= radius && new == #[trigger] clamp(old + d, lo, hi)
}

/// `new` is `old` scaled by a factor in `[0.9, 1.1]`, then clamped to `[lo, hi]`.
pub open spec fn scaled_within(old: int, new: int, lo: int, hi: int) -> bool {
    exists|f: int| 900 <= f <= 1100 && new == #[trigger] clamp(old * f / 1000, lo, hi)
}

pub open spec fn jittered_or_kept(old: int, new: int, radius: int, lo: int, hi: int) -> bool {
    new == old || shifted_within(old, new, radius, lo, hi)
}

/// Each entry keeps its slot and emission, metallic and UV scale; base color
/// and roughness are either kept or moved by at most 50 thousandths within
/// `[0, 1000]`.
pub open spec fn materials_jittered(old: Seq<MaterialSlot>, new: Seq<MaterialSlot>) -> bool {
    &&& new.len() == old.len()
    &&& forall|i: int| 0 <= i < old.len() ==> {
        let (o, n) = (#[trigger] old[i], new[i]);
        &&& n.slot == o.slot
        &&& n.material.emission_r == o.material.emission_r
        &&& n.material.emission_g == o.material.emission_g
        &&& n.material.emission_b == o.material.emission_b
        &&& n.material.emission_strength == o.material.emission_strength
        &&& n.material.metallic == o.material.metallic
        &&& n.material.uv_scale == o.material.uv_scale
        &&& jittered_or_kept(o.material.base_r as int, n.material.base_r as int, 50, 0, 1000)
        &&& jittered_or_kept(o.material.base_g as int, n.material.base_g as int, 50, 0, 1000)
        &&& jittered_or_kept(o.material.base_b as int, n.material.base_b as int, 50, 0, 1000)
        &&& jittered_or_kept(o.material.roughness as int, n.material.roughness as int, 50, 0, 1000)
    }
}

/// Source text rebuilt from `original` around some compiled grammar.
pub open spec fn is_reconstruction(original: Seq<char>, rebuilt: Seq<char>) -> bool {
    exists|s: System| #[trigger] rebuilt_from(s, original, rebuilt)
}

/// What mutating `o` at `rate` yields: `o` itself when the rate is zero or
/// its source does not parse, a mutation of it otherwise.
pub open spec fn mutation_of(rate: int, o: GenotypeView, n: GenotypeView) -> bool {
    if rate > 0 && parse_accepts(o.source_code) {
        mutated_from(o, n)
    } else {
        n == o
    }
}

/// What crossing `a` with `b` yields: `a` itself when either source does not
/// parse; otherwise `a` (when recombination fails) or an offspring.
pub open spec fn crossover_of(a: GenotypeView, b: GenotypeView, c: GenotypeView) -> bool {
    if parse_accepts(a.source_code) && parse_accepts(b.source_code) {
        c == a || offspring_of(a, b, c)
    } else {
        c == a
    }
}

/// The offspring of `a` and `b` built around the recombined grammar `child`
/// with blend weight `t`, the two coins and the seed.
pub open spec fn crossed(
    a: GenotypeView,
    b: GenotypeView,
    child: System,
    t: int,
    finalization_from_a: bool,
    iterations_from_a: bool,
    seed: u64,
    c: GenotypeView,
) -> bool {
    &&& rebuilt_from(child, a.source_code, c.source_code)
    &&& c.finalization_code == if finalization_from_a { a.finalization_code } else { b.finalization_code }
    &&& c.iterations == if iterations_from_a { a.iterations } else { b.iterations }
    &&& c.angle == lerp(a.angle as int, b.angle as int, t)
    &&& c.step == lerp(a.step as int, b.step as int, t)
    &&& c.width == lerp(a.width as int, b.width as int, t)
    &&& blend_of(a.materials, b.materials, t, c.materials)
    &&& c.seed == seed
}

/// `old` moved by `d - radius` (so by an offset in `[-radius, radius]` for
/// `d <= 2 radius`), clamped to `[lo, hi]`.
pub fn shift_by(old: u32, d: u64, radius: u32, lo: u32, hi: u32) -> (r: u32)
    requires
        lo <= hi,
        d <= 2 * radius as u64,
    ensures
        r == clamp(old + d - radius, lo as int, hi as int),
{
    let v: i64 = old as i64 + d as i64 - radius as i64;
    if v < lo as i64 {
        lo
    } else if v > hi as i64 {
        hi
    } else {
        v as u32
    }
}

/// `old` scaled by `f` thousandths, rounded down, clamped to `[lo, hi]`.
pub fn scale_by(old: u32, f: u64, lo: u32, hi: u32) -> (r: u32)
    requires
        lo <= hi,
        f <= 1100,
    ensures
        r == clamp(old * f / 1000, lo as int, hi as int),
{
    assert(old as u64 * f <= 4294967295 * 1100) by (nonlinear_arith)
        requires
            old <= 4294967295,
            f <= 1100,
    ;
    let v: u64 = old as u64 * f / 1000;
    if v < lo as u64 {
        lo
    } else if v > hi as u64 {
        hi
    } else {
        v as u32
    }
}

/// Moves `old` by a uniform offset in `[-radius, radius]` and clamps the
/// result to `[lo, hi]`.
pub fn shift_clamped(rng: &mut Pcg64, old: u32, radius: u32, lo: u32, hi: u32) -> (r: u32)
    requires
        lo <= hi,
    ensures
        shifted_within(old as int, r as int, radius as int, lo as int, hi as int),
        lo <= r <= hi,
{
    let d = draw_below(rng, 2 * radius as u64 + 1);
    let r = shift_by(old, d, radius, lo, hi);
    assert(r == clamp(old + (d - radius), lo as int, hi as int));
    r
}

/// Scales `old` by a uniform factor in `[0.9, 1.1]` and clamps the result to
/// `[lo, hi]`.
pub fn scale_clamped(rng: &mut Pcg64, old: u32, lo: u32, hi: u32) -> (r: u32)
    requires
        lo <= hi,
    ensures
        scaled_within(old as int, r as int, lo as int, hi as int),
        lo <= r <= hi,
{
    let f: u64 = 900 + draw_below(rng, 201);
    let r = scale_by(old, f, lo, hi);
    assert(r == clamp(old * f / 1000, lo as int, hi as int));
    r
}

impl PlantGenotype {
    /// A genotype of the given source with default parameters: 4 iterations,
    /// angle 25 degrees, step 1, width 0.1, seed 42, no materials.
    pub fn new(source_code: String) -> (r: Self)
        ensures
            r.source_code@ == source_code@,
            r.finalization_code@ == Seq::<char>::empty(),
            r.materials@ == Seq::<MaterialSlot>::empty(),
            r.iterations == 4,
            r.angle == 25000,
            r.step == 1000,
            r.width == 100,
            r.seed == 42,
    {
        PlantGenotype {
            source_code,
            finalization_code: String::new(),
            materials: Vec::new(),
            iterations: 4,
            angle: 25000,
            step: 1000,
            width: 100,
            seed: 42,
        }
    }

    /// The genotype with the given finalization code.
    pub fn with_finalization(self, finalization_code: String) -> (r: Self)
        ensures
            r@ == (GenotypeView { finalization_code: finalization_code@, ..self@ }),
    {
        let mut g = self;
        g.finalization_code = finalization_code;
        g
    }

    /// The genotype with the given materials (one entry per slot).
    pub fn with_materials(self, materials: &Vec<MaterialSlot>) -> (r: Self)
        ensures
            r@ == (GenotypeView { materials: materials@, ..self@ }),
    {
        let mut g = self;
        g.materials = copy_materials(materials);
        g
    }

    /// The genotype with the given derivation parameters (angle, step and
    /// width in thousandths).
    pub fn with_params(self, iterations: usize, angle: u32, step: u32, width: u32) -> (r: Self)
        ensures
            r@ == (GenotypeView { iterations, angle, step, width, ..self@ }),
    {
        let mut g = self;
        g.iterations = iterations;
        g.angle = angle;
        g.step = step;
        g.width = width;
        g
    }

    /// The genotype with the given seed.
    pub fn with_seed(self, seed: u64) -> (r: Self)
        ensures
            r@ == (GenotypeView { seed, ..self@ }),
    {
        let mut g = self;
        g.seed = seed;
        g
    }

    /// An exact copy.
    pub fn duplicate(&self) -> (r: Self)
        ensures
            r@ == self@,
    {
        PlantGenotype {
            source_code: self.source_code.clone(),
            finalization_code: self.finalization_code.clone(),
            materials: copy_materials(&self.materials),
            iterations: self.iterations,
            angle: self.angle,
            step: self.step,
            width: self.width,
            seed: self.seed,
        }
    }

    /// Whether every material slot appears once.
    pub open spec fn wf(&self) -> bool {
        slots_unique(self.materials@)
    }

    /// Parses the source into its compiled form; fails without an omega line.
    pub fn parse(&self) -> (r: Option<System>)
        ensures
            r is Some <==> parse_accepts(self.source_code@),
    {
        parse_source(self.source_code.as_str())
    }

    /// Moves base colors (probability `rate`) and roughness (probability
    /// `rate / 2`) of each material slightly, clamped to `[0, 1000]`.
    pub fn mutate_materials(&mut self, rng: &mut Pcg64, rate: u32)
        ensures
            materials_jittered(old(self).materials@, final(self).materials@),
            final(self).source_code@ == old(self).source_code@,
            final(self).finalization_code@ == old(self).finalization_code@,
            final(self).iterations == old(self).iterations,
            final(self).angle == old(self).angle,
            final(self).step == old(self).step,
            final(self).width == old(self).width,
            final(self).seed == old(self).seed,
    {
        let ghost start = self.materials@;
        let mut i: usize = 0;
        while i < self.materials.len()
            invariant
                i <= self.materials@.len(),
                self.materials@.len() == start.len(),
                forall|q: int| i <= q < start.len() ==> self.materials@[q] == start[q],
                materials_jittered(start.take(i as int), self.materials@.take(i as int)),
                self.source_code@ == old(self).source_code@,
                self.finalization_code@ == old(self).finalization_code@,
                self.iterations == old(self).iterations,
                self.angle == old(self).angle,
                self.step == old(self).step,
                self.width == old(self).width,
                self.seed == old(self).seed,
                start == old(self).materials@,
            decreases start.len() - i,
        {
            let mut entry = self.materials[i];
            let ghost o = entry;
            if chance(rng, rate as u64, 1000) {
                entry.material.base_r = shift_clamped(rng, entry.material.base_r, 50, 0, 1000);
                entry.material.base_g = shift_clamped(rng, entry.material.base_g, 50, 0, 1000);
                entry.material.base_b = shift_clamped(rng, entry.material.base_b, 50, 0, 1000);
            }
            if chance(rng, rate as u64, 2000) {
                entry.material.roughness = shift_clamped(rng, entry.material.roughness, 50, 0, 1000);
            }
            self.materials.set(i, entry);
            assert(start.take(i + 1) =~= start.take(i as int).push(o));
            assert(self.materials@.take(i + 1) =~= self.materials@.take(i as int).push(entry));
            i = i + 1;
        }
        assert(start.take(start.len() as int) =~= start);
        assert(self.materials@.take(start.len() as int) =~= self.materials@);
    }

    /// Mutation at `rate` (thousandths). A zero rate, or source that does not
    /// parse, leaves the genotype as it is. Otherwise the compiled grammar is
    /// perturbed (and, with probability `rate / 2`, restructured), the source
    /// is rebuilt from it, the materials are jittered, and angle (probability
    /// `0.3 rate`, within 5 degrees, clamped to 5..90 degrees), step and width
    /// (probability `0.2 rate` each, scaled within 10%, clamped to 0.1..10 and
    /// 0.01..1) and the seed (probability `rate`, redrawn) may change.
    pub fn mutate<G: GrammarOperators>(&mut self, ops: &G, rng: &mut Pcg64, rate: u32)
        ensures
            mutation_of(rate as int, old(self)@, final(self)@),
            rate == 0 || !parse_accepts(old(self).source_code@) ==> *final(rng) == *old(rng),
            old(self).wf() ==> final(self).wf(),
    {
        if rate == 0 {
            return;
        }
        let mut system = match self.parse() {
            Some(s) => s,
            None => return,
        };
        ops.perturb(&mut system, rng, rate);
        if chance(rng, rate as u64, 2000) {
            ops.restructure(&mut system, rng, rate);
        }
        let ghost old_materials = self.materials@;
        let rebuilt = reconstruct_source(&system, self.source_code.as_str());
        self.source_code = rebuilt;
        let ghost rebuilt_text = self.source_code@;
        self.mutate_materials(rng, rate);
        if chance(rng, 3 * rate as u64, 10000) {
            self.angle = shift_clamped(rng, self.angle, 5000, 5000, 90000);
        }
        if chance(rng, rate as u64, 5000) {
            self.step = scale_clamped(rng, self.step, 100, 10000);
        }
        if chance(rng, rate as u64, 5000) {
            self.width = scale_clamped(rng, self.width, 10, 1000);
        }
        if chance(rng, rate as u64, 1000) {
            self.seed = draw_u64(rng);
        }
        proof {
            assert(is_reconstruction(old(self).source_code@, rebuilt_text));
            if slots_unique(old_materials) {
                assert forall|i: int, j: int| 0 <= i < j < self.materials@.len() implies #[trigger] self.materials@[i].slot
                    != #[trigger] self.materials@[j].slot by {
                    assert(old_materials[i].slot != old_materials[j].slot);
                }
            }
        }
    }

    /// Recombines two genotypes. If either source does not parse, the
    /// result is a copy of `self`. Otherwise a blend weight is drawn, the
    /// grammars are recombined with it, two coins and a seed are drawn, and
    /// `finish_crossover` builds the offspring.
    pub fn crossover<G: GrammarOperators>(&self, other: &Self, ops: &G, rng: &mut Pcg64) -> (r: Self)
        requires
            self.wf(),
            other.wf(),
        ensures
            r.wf(),
            crossover_of(self@, other@, r@),
            !parse_accepts(self.source_code@) || !parse_accepts(other.source_code@) ==> *final(rng)
                == *old(rng),
    {
        let sa = match self.parse() {
            Some(s) => s,
            None => return self.duplicate(),
        };
        let sb = match other.parse() {
            Some(s) => s,
            None => return self.duplicate(),
        };
        let t = draw_below(rng, 1001) as u32;
        let child = ops.recombine(&sa, &sb, rng, t);
        let finalization_from_a = draw_bool(rng);
        let iterations_from_a = draw_bool(rng);
        let seed = draw_u64(rng);
        let r = self.finish_crossover(other, child, t, finalization_from_a, iterations_from_a, seed);
        proof {
            if r@ != self@ {
                assert(offspring_of(self@, other@, r@)) by {
                    assert(is_reconstruction(self@.source_code, r@.source_code));
                    assert(blend_of(self@.materials, other@.materials, t as int, r@.materials));
                }
            }
        }
        r
    }

    /// Builds the offspring of `self` and `other` from the recombined grammar
    /// (`None` when recombination failed, which gives a copy of `self`), the
    /// blend weight `t` (thousandths, on `self`), the parent each of
    /// finalization code and iterations comes from, and the new seed.
    pub fn finish_crossover(
        &self,
        other: &Self,
        child: Option<System>,
        t: u32,
        finalization_from_a: bool,
        iterations_from_a: bool,
        seed: u64,
    ) -> (r: Self)
        requires
            self.wf(),
            other.wf(),
            t <= 1000,
        ensures
            r.wf(),
            child is None ==> r@ == self@,
            child matches Some(s) ==> crossed(self@, other@, s, t as int, finalization_from_a, iterations_from_a, seed, r@),
    {
        let child = match child {
            Some(c) => c,
            None => return self.duplicate(),
        };
        let source_code = reconstruct_source(&child, self.source_code.as_str());
        let finalization_code = if finalization_from_a {
            self.finalization_code.clone()
        } else {
            other.finalization_code.clone()
        };
        let materials = blend_materials(&self.materials, &other.materials, t);
        let iterations = if iterations_from_a {
            self.iterations
        } else {
            other.iterations
        };
        let r = PlantGenotype {
            source_code,
            finalization_code,
            materials,
            iterations,
            angle: lerp_u32(self.angle, other.angle, t),
            step: lerp_u32(self.step, other.step, t),
            width: lerp_u32(self.width, other.width, t),
            seed,
        };
        assert(blend_of(self@.materials, other@.materials, t as int, r@.materials));
        r
    }
}

/// What a mutation that went ahead may have changed, and how.
pub open spec fn mutated_from(o: GenotypeView, n: GenotypeView) -> bool {
    &&& is_reconstruction(o.source_code, n.source_code)
    &&& n.finalization_code == o.finalization_code
    &&& n.iterations == o.iterations
    &&& materials_jittered(o.materials, n.materials)
    &&& jittered_or_kept(o.angle as int, n.angle as int, 5000, 5000, 90000)
    &&& (n.step == o.step || scaled_within(o.step as int, n.step as int, 100, 10000))
    &&& (n.width == o.width || scaled_within(o.width as int, n.width as int, 10, 1000))
}

/// `r` is the slot-by-slot blend of palettes `a` and `b` with weight `t`.
pub open spec fn blend_of(a: Seq<MaterialSlot>, b: Seq<MaterialSlot>, t: int, r: Seq<MaterialSlot>) -> bool {
    &&& slots_unique(r)
    &&& forall|k: u8| has_slot(r, k) <==> has_slot(a, k) || has_slot(b, k)
    &&& forall|i: int| 0 <= i < r.len() ==> #[trigger] r[i].material == blended_at(a, b, t, r[i].slot)
}

/// A successful crossover of `a` and `b`.
pub open spec fn offspring_of(a: GenotypeView, b: GenotypeView, c: GenotypeView) -> bool {
    exists|t: int|
        0 <= t <= 1000 && {
            &&& is_reconstruction(a.source_code, c.source_code)
            &&& (c.finalization_code == a.finalization_code || c.finalization_code == b.finalization_code)
            &&& (c.iterations == a.iterations || c.iterations == b.iterations)
            &&& c.angle == lerp(a.angle as int, b.angle as int, t)
            &&& c.step == lerp(a.step as int, b.step as int, t)
            &&& c.width == lerp(a.width as int, b.width as int, t)
            &&& #[trigger] blend_of(a.materials, b.materials, t, c.materials)
        }
}

/// The number of lines holding `->`.
pub open spec fn arrow_lines(ls: Seq<Seq<char>>) -> nat
    decreases ls.len(),
{
    if ls.len() == 0 {
        0
    } else {
        arrow_lines(ls.drop_last()) + if has_infix(ls.last(), "->"@) {
            1nat
        } else {
            0nat
        }
    }
}

/// Structural fitness: ten per line holding `->`, five per material slot.
pub open spec fn fitness_of(g: GenotypeView) -> int {
    (10 * arrow_lines(lines_of(g.source_code)) + 5 * g.materials.len()) as int
}

/// The structural fitness of a genotype, for display and ranking.
pub fn evaluate_genotype(genotype: &PlantGenotype) -> (r: u128)
    ensures
        r == fitness_of(genotype@),
{
    let ls = split_lines(genotype.source_code.as_str());
    let ghost gls = views(ls@);
    let mut count: usize = 0;
    let mut i: usize = 0;
    while i < ls.len()
        invariant
            i <= ls@.len(),
            gls == views(ls@),
            count <= i,
            count == arrow_lines(gls.take(i as int)),
        decreases ls@.len() - i,
    {
        assert(gls.take(i + 1).drop_last() =~= gls.take(i as int));
        assert(gls.take(i + 1).last() == ls@[i as int]@);
        if contains(ls[i].as_str(), "->") {
            count = count + 1;
        }
        i = i + 1;
    }
    assert(gls.take(ls@.len() as int) =~= gls);
    count as u128 * 10 + genotype.materials.len() as u128 * 5
}

} // verus!
