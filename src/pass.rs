//! What the render passes decide on the CPU: their settings, and which
//! lights an entity is shaded with.
use vstd::prelude::*;

verus! {

/// How many lights a single entity is shaded with.
pub const LIGHT_COUNT: usize = 4;

/// The shading model of a Phong-pass entity.
#[derive(Clone, Copy, Debug, PartialEq, Eq, Structural)]
pub enum Shader {
    Gouraud { flat: bool },
    Phong { glossiness: u8 },
}

/// The pipeline a Phong-pass entity is drawn with.
#[derive(Clone, Copy, Debug, PartialEq, Eq, Structural)]
pub enum PhongPipeline {
    Flat,
    Gouraud,
    Phong,
}

impl Shader {
    /// The pipeline that draws this shading model.
    pub fn pipeline(&self) -> (r: PhongPipeline)
        ensures
            r == match *self {
                Shader::Gouraud { flat: true } => PhongPipeline::Flat,
                Shader::Gouraud { flat: false } => PhongPipeline::Gouraud,
                Shader::Phong { .. } => PhongPipeline::Phong,
            },
    {
        match *self {
            Shader::Gouraud { flat: true } => PhongPipeline::Flat,
            Shader::Gouraud { flat: false } => PhongPipeline::Gouraud,
            Shader::Phong { .. } => PhongPipeline::Phong,
        }
    }

    /// The specular exponent handed to the shader; zero for Gouraud shading.
    pub fn glossiness(&self) -> (r: u8)
        ensures
            r == match *self {
                Shader::Phong { glossiness } => glossiness,
                Shader::Gouraud { .. } => 0u8,
            },
    {
        match *self {
            Shader::Phong { glossiness } => glossiness,
            Shader::Gouraud { .. } => 0,
        }
    }
}

/// The size of a texture in texels.
#[derive(Clone, Copy, Debug, PartialEq, Eq, Hash, Structural)]
pub struct Extent {
    pub width: u32,
    pub height: u32,
    pub depth_or_array_layers: u32,
}

/// A pass's depth buffer is made anew when there is none yet or when its
/// size differs from the target's.
pub fn needs_depth_reset(depth: Option<Extent>, target: Extent) -> (r: bool)
    ensures
        r == match depth {
            Some(size) => size != target,
            None => true,
        },
{
    match depth {
        Some(size) => size != target,
        None => true,
    }
}

/// A pass that only clears its target.
#[derive(Clone, Copy, Debug)]
pub struct Clear;

/// Settings of the solid-color pass.
#[derive(Debug)]
pub struct SolidConfig {
    pub cull_back_faces: bool,
}

impl Default for SolidConfig {
    fn default() -> (r: Self)
        ensures
            r.cull_back_faces,
    {
        SolidConfig { cull_back_faces: true }
    }
}

/// Settings of the physically-based pass.
#[derive(Debug)]
pub struct RealConfig {
    pub cull_back_faces: bool,
    /// Lights past this many are not uploaded.
    pub max_lights: usize,
}

impl Default for RealConfig {
    fn default() -> (r: Self)
        ensures
            r.cull_back_faces,
            r.max_lights == 16,
    {
        RealConfig { cull_back_faces: true, max_lights: 16 }
    }
}

/// Light `j` ranks before light `i`: both are candidates, and `j` has the
/// smaller key, or the same key and was added first.
pub open spec fn ranks_before(keys: Seq<Option<usize>>, j: int, i: int) -> bool {
    &&& keys[j].is_some()
    &&& keys[i].is_some()
    &&& (keys[j].unwrap() < keys[i].unwrap() || (keys[j].unwrap() == keys[i].unwrap() && j < i))
}

/// How many of the first `m` lights rank before light `i`: its place once
/// the candidates are sorted by key, ties kept in order.
pub open spec fn rank(keys: Seq<Option<usize>>, i: int, m: int) -> nat
    decreases m,
{
    if m <= 0 {
        0
    } else {
        rank(keys, i, m - 1) + if ranks_before(keys, m - 1, i) {
            1nat
        } else {
            0nat
        }
    }
}

/// How many of the first `m` lights are candidates.
pub open spec fn candidates(keys: Seq<Option<usize>>, m: int) -> nat
    decreases m,
{
    if m <= 0 {
        0
    } else {
        candidates(keys, m - 1) + if keys[m - 1].is_some() {
            1nat
        } else {
            0nat
        }
    }
}

/// A candidate ranks below the number of candidates that precede or are it.
proof fn lemma_rank_bound(keys: Seq<Option<usize>>, i: int, m: int)
    requires
        0 <= i < keys.len(),
        keys[i].is_some(),
        0 <= m <= keys.len(),
    ensures
        rank(keys, i, m) + (if i < m { 1nat } else { 0nat }) <= candidates(keys, m),
    decreases m,
{
    if m > 0 {
        lemma_rank_bound(keys, i, m - 1);
    }
}

/// A candidate that ranks before another gets a smaller rank.
proof fn lemma_rank_order(keys: Seq<Option<usize>>, i: int, k: int, m: int)
    requires
        0 <= i < keys.len(),
        0 <= k < keys.len(),
        ranks_before(keys, i, k),
        0 <= m <= keys.len(),
    ensures
        rank(keys, i, m) + (if i < m { 1nat } else { 0nat }) <= rank(keys, k, m),
    decreases m,
{
    if m > 0 {
        lemma_rank_order(keys, i, k, m - 1);
    }
}

/// Two different candidates never share a rank.
proof fn lemma_rank_distinct(keys: Seq<Option<usize>>, i: int, k: int)
    requires
        0 <= i < keys.len(),
        0 <= k < keys.len(),
        i != k,
        keys[i].is_some(),
        keys[k].is_some(),
    ensures
        rank(keys, i, keys.len() as int) != rank(keys, k, keys.len() as int),
{
    if ranks_before(keys, i, k) {
        lemma_rank_order(keys, i, k, keys.len() as int);
    } else {
        lemma_rank_order(keys, k, i, keys.len() as int);
    }
}

/// Picks the lights that most affect an entity.
///
/// `keys[i]` is `None` for a light too weak to count, and otherwise a key
/// that is smaller the more light `i` matters. The candidates are sorted by
/// key, ties kept in the order the lights were added; the first
/// `LIGHT_COUNT` of them fill the result in that order, and any place left
/// over holds 0.
pub fn select_lights(keys: &Vec<Option<usize>>) -> (r: [u32; LIGHT_COUNT])
    requires
        keys@.len() <= 0x1_0000_0000,
    ensures
        forall|i: int|
            0 <= i < keys@.len() && keys@[i].is_some() && rank(keys@, i, keys@.len() as int)
                < LIGHT_COUNT ==> r@[rank(keys@, i, keys@.len() as int) as int] == i,
        forall|p: int|
            candidates(keys@, keys@.len() as int) <= p < LIGHT_COUNT ==> r@[p] == 0,
{
    let n = keys.len();
    let mut r: [u32; LIGHT_COUNT] = [0u32, 0u32, 0u32, 0u32];
    let mut i: usize = 0;
    while i < n
        invariant
            n == keys@.len() <= 0x1_0000_0000,
            i <= n,
            r@.len() == LIGHT_COUNT,
            forall|j: int|
                0 <= j < i && keys@[j].is_some() && rank(keys@, j, n as int) < LIGHT_COUNT ==> r@[rank(
                    keys@,
                    j,
                    n as int,
                ) as int] == j,
            forall|p: int|
                0 <= p < LIGHT_COUNT && (forall|j: int|
                    0 <= j < i && keys@[j].is_some() ==> rank(keys@, j, n as int) != p) ==> r@[p]
                    == 0,
        decreases n - i,
    {
        if let Some(key) = keys[i] {
            let mut place: usize = 0;
            let mut j: usize = 0;
            while j < n
                invariant
                    n == keys@.len(),
                    i < n,
                    j <= n,
                    keys@[i as int] == Some(key),
                    place == rank(keys@, i as int, j as int),
                    place <= j,
                decreases n - j,
            {
                let before = match keys[j] {
                    Some(other) => other < key || (other == key && j < i),
                    None => false,
                };
                if before {
                    place = place + 1;
                }
                j = j + 1;
            }
            if place < LIGHT_COUNT {
                let ghost old_r = r@;
                r[place] = i as u32;
                assert forall|j: int|
                    0 <= j < i && keys@[j].is_some() && rank(keys@, j, n as int)
                        < LIGHT_COUNT implies r@[rank(keys@, j, n as int) as int] == j by {
                    lemma_rank_distinct(keys@, j, i as int);
                }
            }
        }
        i = i + 1;
    }
    proof {
        assert forall|p: int|
            candidates(keys@, n as int) <= p < LIGHT_COUNT implies r@[p] == 0 by {
            assert forall|j: int| 0 <= j < n && keys@[j].is_some() implies rank(keys@, j, n as int)
                != p by {
                lemma_rank_bound(keys@, j, n as int);
            }
        }
    }
    r
}

} // verus!
