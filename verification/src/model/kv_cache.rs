//! The keys and values of all positions so far, layer by layer.
//!
//! Each vector is stored as signed bytes and one scale; a value is its byte
//! times the scale. Scales are held as the bits of single-precision numbers.

use crate::error::{Fault, WillametteError};
use crate::text::{cat4, cat6, dec, decimal, owned};
use vstd::arithmetic::div_mod::{lemma_fundamental_div_mod, lemma_mod_bound};
use vstd::prelude::*;

verus! {

/// A vector as signed bytes and one scale.
#[derive(Debug)]
pub struct QuantizedVector {
    pub quants: Vec<i8>,
    pub scale: u32,
}

/// A vector as signed bytes and one scale, as a mathematical object.
#[verifier::ext_equal]
pub struct Quantized {
    pub quants: Seq<i8>,
    pub scale: u32,
}

impl View for QuantizedVector {
    type V = Quantized;

    open spec fn view(&self) -> Quantized {
        Quantized { quants: self.quants@, scale: self.scale }
    }
}

/// The key and the value of one position.
#[verifier::ext_equal]
pub struct Pair {
    pub key: Quantized,
    pub value: Quantized,
}

/// The cache as a mathematical object: the pairs of each layer by position.
#[verifier::ext_equal]
pub struct CacheState {
    pub layers: Seq<Seq<Pair>>,
    pub kv_dim: int,
    pub max_seq_len: int,
}

impl CacheState {
    /// How many positions the first layer holds.
    pub open spec fn position(self) -> int {
        if self.layers.len() == 0 {
            0
        } else {
            self.layers[0].len() as int
        }
    }

    /// One more pair in a layer.
    pub open spec fn with(self, layer: int, pair: Pair) -> CacheState {
        CacheState {
            layers: self.layers.update(layer, self.layers[layer].push(pair)),
            ..self
        }
    }

    /// Why a pair cannot be added.
    pub open spec fn append_fault(
        self,
        layer: int,
        key_len: int,
        value_len: int,
    ) -> Option<Fault> {
        if layer >= self.layers.len() {
            Some(
                Fault::GgufParse(
                    "KVCache::append: layer_idx "@ + dec(layer) + " >= n_layers "@ + dec(
                        self.layers.len() as int,
                    ),
                ),
            )
        } else if key_len != self.kv_dim || value_len != self.kv_dim {
            Some(
                Fault::GgufParse(
                    "KVCache::append: k.len()="@ + dec(key_len) + " v.len()="@ + dec(value_len)
                        + " != kv_dim="@ + dec(self.kv_dim),
                ),
            )
        } else if self.layers[layer].len() >= self.max_seq_len {
            Some(
                Fault::GgufParse(
                    "KVCache::append: layer "@ + dec(layer) + " already at max_seq_len "@ + dec(
                        self.max_seq_len,
                    ),
                ),
            )
        } else {
            None
        }
    }

    /// Why a number of positions cannot be added to all layers.
    pub open spec fn chunk_fault(self, n_layers: int, kv_dim: int, tokens: int) -> Option<Fault> {
        if self.layers.len() != n_layers {
            Some(
                Fault::GgufParse(
                    "KVCache::validate_append: n_layers "@ + dec(self.layers.len() as int)
                        + " != model layers "@ + dec(n_layers),
                ),
            )
        } else if self.kv_dim != kv_dim {
            Some(
                Fault::GgufParse(
                    "KVCache::validate_append: kv_dim "@ + dec(self.kv_dim)
                        + " != model kv_dim "@ + dec(kv_dim),
                ),
            )
        } else if !self.in_step() {
            Some(Fault::GgufParse("KVCache::validate_append: layers are out of step"@))
        } else if self.position() + tokens > self.max_seq_len {
            Some(
                Fault::GgufParse(
                    "KVCache::validate_append: position "@ + dec(self.position())
                        + " + tokens "@ + dec(tokens) + " > max_seq_len "@ + dec(
                        self.max_seq_len,
                    ),
                ),
            )
        } else {
            None
        }
    }

    /// All layers hold equally many positions.
    pub open spec fn in_step(self) -> bool {
        forall|l: int|
            0 <= l < self.layers.len() ==> (#[trigger] self.layers[l]).len() == self.position()
    }

    /// How many positions each layer holds.
    pub open spec fn lengths(self) -> Seq<nat> {
        self.layers.map_values(|l: Seq<Pair>| l.len())
    }

    /// Each layer without the positions from a length on.
    pub open spec fn cut_back(self, lengths: Seq<nat>) -> CacheState {
        CacheState {
            layers: Seq::new(
                self.layers.len(),
                |l: int|
                    if l < lengths.len() && lengths[l] < self.layers[l].len() {
                        self.layers[l].take(lengths[l] as int)
                    } else {
                        self.layers[l]
                    },
            ),
            ..self
        }
    }

    /// No layer holds more positions than it may, and all keys and values are as
    /// long as they should be.
    pub open spec fn wf(self) -> bool {
        &&& 0 <= self.kv_dim
        &&& forall|l: int|
            0 <= l < self.layers.len() ==> (#[trigger] self.layers[l]).len() <= self.max_seq_len
        &&& forall|l: int, p: int|
            0 <= l < self.layers.len() && 0 <= p < self.layers[l].len() ==> (
            #[trigger] self.layers[l][p]).key.quants.len() == self.kv_dim
                && self.layers[l][p].value.quants.len() == self.kv_dim
    }

    /// The cache without any position.
    pub open spec fn emptied(self) -> CacheState {
        CacheState {
            layers: Seq::new(self.layers.len(), |l: int| Seq::<Pair>::empty()),
            ..self
        }
    }

    /// This cache holds what `other` held, and possibly more positions.
    pub open spec fn extends(self, other: CacheState) -> bool {
        &&& self.layers.len() == other.layers.len()
        &&& self.kv_dim == other.kv_dim
        &&& self.max_seq_len == other.max_seq_len
        &&& forall|l: int|
            0 <= l < self.layers.len() ==> other.layers[l].len() <= (
            #[trigger] self.layers[l]).len() && self.layers[l].take(other.layers[l].len() as int)
                == other.layers[l]
    }
}

/// The keys of a layer, element by element: the byte and its scale.
pub open spec fn key_elements(layer: Seq<Pair>, kv_dim: int) -> Seq<(i8, u32)> {
    Seq::new(
        (layer.len() * kv_dim) as nat,
        |i: int| (layer[i / kv_dim].key.quants[i % kv_dim], layer[i / kv_dim].key.scale),
    )
}

/// The values of a layer, element by element: the byte and its scale.
pub open spec fn value_elements(layer: Seq<Pair>, kv_dim: int) -> Seq<(i8, u32)> {
    Seq::new(
        (layer.len() * kv_dim) as nat,
        |i: int| (layer[i / kv_dim].value.quants[i % kv_dim], layer[i / kv_dim].value.scale),
    )
}

/// Adding a pair and cutting it off again changes nothing; more generally,
/// cutting back to the lengths that a cache had gives that cache.
pub proof fn cutting_back_undoes_appending(before: CacheState, after: CacheState)
    requires
        after.extends(before),
    ensures
        after.cut_back(before.lengths()) == before,
{
    let back = after.cut_back(before.lengths());
    assert(back.layers.len() == before.layers.len());
    assert forall|l: int| 0 <= l < back.layers.len() implies back.layers[l] == before.layers[l] by {
        assert(before.lengths()[l] == before.layers[l].len());
        assert(after.layers[l].take(before.layers[l].len() as int) == before.layers[l]);
        if before.layers[l].len() == after.layers[l].len() {
            assert(after.layers[l].take(before.layers[l].len() as int) =~= after.layers[l]);
        }
    }
    assert(back.layers =~= before.layers);
    assert(back =~= before);
}

/// A cache extends itself, and adding a pair keeps what was there.
pub proof fn appending_extends(start: CacheState, c: CacheState, layer: int, pair: Pair)
    requires
        c.extends(start),
        0 <= layer < c.layers.len(),
    ensures
        start.extends(start),
        c.with(layer, pair).extends(start),
{
    let more = c.with(layer, pair);
    assert forall|l: int| 0 <= l < start.layers.len() implies (#[trigger] start.layers[l]).take(
        start.layers[l].len() as int,
    ) == start.layers[l] by {
        assert(start.layers[l].take(start.layers[l].len() as int) =~= start.layers[l]);
    }
    assert forall|l: int| 0 <= l < more.layers.len() implies start.layers[l].len() <= (
    #[trigger] more.layers[l]).len() && more.layers[l].take(start.layers[l].len() as int)
        == start.layers[l] by {
        assert(c.layers[l].take(start.layers[l].len() as int) == start.layers[l]);
        assert(more.layers[l].take(start.layers[l].len() as int) =~= c.layers[l].take(
            start.layers[l].len() as int,
        ));
    }
}

/// What is read at a position is what was added there.
pub proof fn reading_gives_back_what_was_added(layer: Seq<Pair>, kv_dim: int, p: int, d: int)
    requires
        0 <= p < layer.len(),
        0 <= d < kv_dim,
    ensures
        0 <= p * kv_dim + d < layer.len() * kv_dim,
        key_elements(layer, kv_dim)[p * kv_dim + d] == (
            layer[p].key.quants[d],
            layer[p].key.scale,
        ),
        value_elements(layer, kv_dim)[p * kv_dim + d] == (
            layer[p].value.quants[d],
            layer[p].value.scale,
        ),
{
    lemma_place(layer.len() as int, kv_dim, p, d);
}

/// The element of a position in a row of vectors.
proof fn lemma_place(n: int, kv_dim: int, p: int, d: int)
    requires
        0 <= p < n,
        0 <= d < kv_dim,
    ensures
        0 <= p * kv_dim + d < n * kv_dim,
        (p * kv_dim + d) / kv_dim == p,
        (p * kv_dim + d) % kv_dim == d,
{
    assert(0 <= p * kv_dim) by (nonlinear_arith)
        requires
            0 <= p,
            0 <= kv_dim,
    ;
    assert(p * kv_dim + kv_dim <= n * kv_dim) by (nonlinear_arith)
        requires
            p + 1 <= n,
            0 <= kv_dim,
    ;
    vstd::arithmetic::div_mod::lemma_fundamental_div_mod_converse(
        p * kv_dim + d,
        kv_dim,
        p,
        d,
    );
}

/// One layer: the bytes of all vectors in a row, and their scales.
#[derive(Debug)]
struct LayerKV {
    k_quant: Vec<i8>,
    k_scales: Vec<u32>,
    v_quant: Vec<i8>,
    v_scales: Vec<u32>,
}

impl LayerKV {
    /// As many bytes as the scales ask for.
    spec fn wf(&self, kv_dim: int) -> bool {
        &&& self.k_scales@.len() == self.v_scales@.len()
        &&& self.k_quant@.len() == self.k_scales@.len() * kv_dim
        &&& self.v_quant@.len() == self.k_scales@.len() * kv_dim
    }

    /// The pair of a position.
    spec fn pair(&self, kv_dim: int, p: int) -> Pair {
        Pair {
            key: Quantized {
                quants: self.k_quant@.subrange(p * kv_dim, p * kv_dim + kv_dim),
                scale: self.k_scales@[p],
            },
            value: Quantized {
                quants: self.v_quant@.subrange(p * kv_dim, p * kv_dim + kv_dim),
                scale: self.v_scales@[p],
            },
        }
    }

    /// The pairs of all positions.
    spec fn pairs(&self, kv_dim: int) -> Seq<Pair> {
        Seq::new(self.k_scales@.len(), |p: int| self.pair(kv_dim, p))
    }

    fn new(Ghost(kv_dim): Ghost<int>) -> (l: Self)
        ensures
            l.wf(kv_dim),
            l.pairs(kv_dim) == Seq::<Pair>::empty(),
    {
        let l = LayerKV {
            k_quant: Vec::new(),
            k_scales: Vec::new(),
            v_quant: Vec::new(),
            v_scales: Vec::new(),
        };
        proof {
            assert(0 * kv_dim == 0);
            assert(l.pairs(kv_dim) =~= Seq::<Pair>::empty());
        }
        l
    }

    /// Adds a pair.
    fn push(&mut self, key: &QuantizedVector, value: &QuantizedVector, Ghost(kv_dim): Ghost<int>)
        requires
            old(self).wf(kv_dim),
            key.quants@.len() == kv_dim,
            value.quants@.len() == kv_dim,
        ensures
            final(self).wf(kv_dim),
            final(self).pairs(kv_dim) == old(self).pairs(kv_dim).push(
                Pair { key: key@, value: value@ },
            ),
    {
        let ghost before = *self;
        let ghost n = self.k_scales@.len() as int;
        append_bytes(&mut self.k_quant, &key.quants);
        append_bytes(&mut self.v_quant, &value.quants);
        self.k_scales.push(key.scale);
        self.v_scales.push(value.scale);
        proof {
            assert((n + 1) * kv_dim == n * kv_dim + kv_dim) by (nonlinear_arith);
            let made = self.pairs(kv_dim);
            let wanted = before.pairs(kv_dim).push(Pair { key: key@, value: value@ });
            assert forall|p: int| 0 <= p < made.len() implies made[p] == wanted[p] by {
                assert(0 <= p * kv_dim && p * kv_dim + kv_dim <= (n + 1) * kv_dim)
                    by (nonlinear_arith)
                    requires
                        0 <= p < n + 1,
                        kv_dim >= 0,
                ;
                if p < n {
                    assert(p * kv_dim + kv_dim <= n * kv_dim) by (nonlinear_arith)
                        requires
                            0 <= p < n,
                            kv_dim >= 0,
                    ;
                    assert(self.k_quant@.subrange(p * kv_dim, p * kv_dim + kv_dim)
                        =~= before.k_quant@.subrange(p * kv_dim, p * kv_dim + kv_dim));
                    assert(self.v_quant@.subrange(p * kv_dim, p * kv_dim + kv_dim)
                        =~= before.v_quant@.subrange(p * kv_dim, p * kv_dim + kv_dim));
                } else {
                    assert(self.k_quant@.subrange(p * kv_dim, p * kv_dim + kv_dim)
                        =~= key.quants@);
                    assert(self.v_quant@.subrange(p * kv_dim, p * kv_dim + kv_dim)
                        =~= value.quants@);
                }
            }
            assert(made =~= wanted);
        }
    }

    /// Removes the positions from a length on.
    fn truncate(&mut self, len: usize, kv_dim: usize)
        requires
            old(self).wf(kv_dim as int),
        ensures
            final(self).wf(kv_dim as int),
            final(self).pairs(kv_dim as int) == if len < old(self).pairs(kv_dim as int).len() {
                old(self).pairs(kv_dim as int).take(len as int)
            } else {
                old(self).pairs(kv_dim as int)
            },
    {
        let n: usize = self.k_scales.len();
        if len >= n {
            return;
        }
        let ghost before = *self;
        let bound: usize = self.k_quant.len();
        proof {
            assert(len * kv_dim <= n * kv_dim) by (nonlinear_arith)
                requires
                    len <= n,
                    kv_dim >= 0,
            ;
        }
        let keep: usize = len * kv_dim;
        self.k_quant.truncate(keep);
        self.v_quant.truncate(keep);
        self.k_scales.truncate(len);
        self.v_scales.truncate(len);
        proof {
            let d = kv_dim as int;
            let made = self.pairs(d);
            let wanted = before.pairs(d).take(len as int);
            assert forall|p: int| 0 <= p < made.len() implies made[p] == wanted[p] by {
                assert(0 <= p * d && p * d + d <= len * d) by (nonlinear_arith)
                    requires
                        0 <= p < len,
                        d >= 0,
                ;
                assert(self.k_quant@.subrange(p * d, p * d + d) =~= before.k_quant@.subrange(
                    p * d,
                    p * d + d,
                ));
                assert(self.v_quant@.subrange(p * d, p * d + d) =~= before.v_quant@.subrange(
                    p * d,
                    p * d + d,
                ));
            }
            assert(made =~= wanted);
        }
    }
}

/// Adds bytes at the end.
fn append_bytes(to: &mut Vec<i8>, from: &Vec<i8>)
    ensures
        final(to)@ == old(to)@ + from@,
{
    let ghost before = to@;
    let mut i: usize = 0;
    while i < from.len()
        invariant
            i <= from@.len(),
            to@ == before + from@.take(i as int),
        decreases from.len() - i,
    {
        to.push(from[i]);
        i = i + 1;
        proof {
            assert(to@ =~= before + from@.take(i as int));
        }
    }
    proof {
        assert(from@.take(i as int) =~= from@);
    }
}

/// The keys and values of all positions so far, layer by layer.
#[derive(Debug)]
pub struct KVCache {
    n_layers: usize,
    kv_dim: usize,
    max_seq_len: usize,
    layers: Vec<LayerKV>,
}

impl View for KVCache {
    type V = CacheState;

    closed spec fn view(&self) -> CacheState {
        CacheState {
            layers: self.layers@.map_values(|l: LayerKV| l.pairs(self.kv_dim as int)),
            kv_dim: self.kv_dim as int,
            max_seq_len: self.max_seq_len as int,
        }
    }
}

impl KVCache {
    /// Every layer is sound, and none holds more than it may.
    pub closed spec fn wf(&self) -> bool {
        &&& self.layers@.len() == self.n_layers
        &&& forall|l: int|
            0 <= l < self.layers@.len() ==> (#[trigger] self.layers@[l]).wf(self.kv_dim as int)
                && self.layers@[l].k_scales@.len() <= self.max_seq_len
    }

    /// No layer holds more positions than it may, and all keys and values are as
    /// long as they should be.
    pub proof fn state_is_sound(&self)
        requires
            self.wf(),
        ensures
            self@.wf(),
    {
        let dim = self.kv_dim as int;
        assert forall|l: int, p: int|
            0 <= l < self@.layers.len() && 0 <= p < self@.layers[l].len() implies (
        #[trigger] self@.layers[l][p]).key.quants.len() == dim
            && self@.layers[l][p].value.quants.len() == dim by {
            let layer = self.layers@[l];
            assert(layer.wf(dim));
            assert(self@.layers[l] == layer.pairs(dim));
            let n = layer.k_scales@.len() as int;
            assert(0 <= p * dim && p * dim + dim <= n * dim) by (nonlinear_arith)
                requires
                    0 <= p < n,
                    0 <= dim,
            ;
            assert(self@.layers[l][p] == layer.pair(dim, p));
        }
        assert forall|l: int| 0 <= l < self@.layers.len() implies (
        #[trigger] self@.layers[l]).len() <= self@.max_seq_len by {
            assert(self.layers@[l].wf(dim));
            assert(self@.layers[l] == self.layers@[l].pairs(dim));
        }
    }

    /// An empty cache.
    pub fn new(n_layers: usize, kv_dim: usize, max_seq_len: usize) -> (c: Self)
        ensures
            c.wf(),
            c@ == (CacheState {
                layers: Seq::new(n_layers as nat, |l: int| Seq::<Pair>::empty()),
                kv_dim: kv_dim as int,
                max_seq_len: max_seq_len as int,
            }),
    {
        let mut layers: Vec<LayerKV> = Vec::new();
        let mut i: usize = 0;
        while i < n_layers
            invariant
                i <= n_layers,
                layers@.len() == i,
                forall|l: int|
                    0 <= l < i ==> (#[trigger] layers@[l]).wf(kv_dim as int) && layers@[l].pairs(
                        kv_dim as int,
                    ) == Seq::<Pair>::empty(),
            decreases n_layers - i,
        {
            layers.push(LayerKV::new(Ghost(kv_dim as int)));
            i = i + 1;
        }
        let c = KVCache { n_layers, kv_dim, max_seq_len, layers };
        proof {
            assert forall|l: int| 0 <= l < c.layers@.len() implies (
            #[trigger] c.layers@[l]).k_scales@.len() <= max_seq_len by {
                assert(c.layers@[l].pairs(kv_dim as int).len() == 0);
            }
            assert(c@.layers =~= Seq::new(n_layers as nat, |l: int| Seq::<Pair>::empty()));
        }
        c
    }

    /// An empty cache, unless its vectors cannot be counted.
    pub fn try_new(n_layers: usize, kv_dim: usize, max_seq_len: usize) -> (r: Result<
        Self,
        WillametteError,
    >)
        ensures
            match r {
                Ok(c) => {
                    &&& max_seq_len * kv_dim <= usize::MAX
                    &&& c.wf()
                    &&& c@ == (CacheState {
                        layers: Seq::new(n_layers as nat, |l: int| Seq::<Pair>::empty()),
                        kv_dim: kv_dim as int,
                        max_seq_len: max_seq_len as int,
                    })
                },
                Err(e) => max_seq_len * kv_dim > usize::MAX && e@ == Fault::GgufParse(
                    "KVCache: max_seq_len "@ + dec(max_seq_len as int) + " * kv_dim "@ + dec(
                        kv_dim as int,
                    ) + " overflows usize"@,
                ),
            },
    {
        match max_seq_len.checked_mul(kv_dim) {
            Some(_) => Ok(KVCache::new(n_layers, kv_dim, max_seq_len)),
            None => {
                let a = decimal(max_seq_len as u64);
                let b = decimal(kv_dim as u64);
                let mut text = cat4("KVCache: max_seq_len ", a.as_str(), " * kv_dim ", b.as_str());
                text.append(" overflows usize");
                Err(WillametteError::GgufParse(text))
            },
        }
    }

    /// How many layers there are.
    pub fn n_layers(&self) -> (n: usize)
        requires
            self.wf(),
        ensures
            n == self@.layers.len(),
    {
        self.n_layers
    }

    /// How long each key and value is.
    pub fn kv_dim(&self) -> (n: usize)
        ensures
            n == self@.kv_dim,
    {
        self.kv_dim
    }

    /// How many positions a layer can hold.
    pub fn max_seq_len(&self) -> (n: usize)
        ensures
            n == self@.max_seq_len,
    {
        self.max_seq_len
    }

    /// How many positions the first layer holds.
    pub fn position(&self) -> (n: usize)
        requires
            self.wf(),
        ensures
            n == self@.position(),
            n <= self@.max_seq_len,
    {
        if self.layers.len() == 0 {
            0
        } else {
            let n: usize = self.layers[0].k_scales.len();
            proof {
                assert(self.layers@[0].wf(self.kv_dim as int));
                assert(self@.layers[0] == self.layers@[0].pairs(self.kv_dim as int));
            }
            n
        }
    }

    /// Adds the key and the value of the next position of a layer.
    pub fn append(
        &mut self,
        layer_idx: usize,
        k: &QuantizedVector,
        v: &QuantizedVector,
    ) -> (r: Result<(), WillametteError>)
        requires
            old(self).wf(),
        ensures
            final(self).wf(),
            match r {
                Ok(_) => {
                    &&& old(self)@.append_fault(
                        layer_idx as int,
                        k.quants@.len() as int,
                        v.quants@.len() as int,
                    ) is None
                    &&& final(self)@ == old(self)@.with(
                        layer_idx as int,
                        Pair { key: k@, value: v@ },
                    )
                },
                Err(e) => {
                    &&& old(self)@.append_fault(
                        layer_idx as int,
                        k.quants@.len() as int,
                        v.quants@.len() as int,
                    ) == Some(e@)
                    &&& final(self)@ == old(self)@
                },
            },
    {
        if layer_idx >= self.n_layers {
            let a = decimal(layer_idx as u64);
            let b = decimal(self.n_layers as u64);
            return Err(
                WillametteError::GgufParse(
                    cat4("KVCache::append: layer_idx ", a.as_str(), " >= n_layers ", b.as_str()),
                ),
            );
        }
        if k.quants.len() != self.kv_dim || v.quants.len() != self.kv_dim {
            let a = decimal(k.quants.len() as u64);
            let b = decimal(v.quants.len() as u64);
            let c = decimal(self.kv_dim as u64);
            return Err(
                WillametteError::GgufParse(
                    cat6(
                        "KVCache::append: k.len()=",
                        a.as_str(),
                        " v.len()=",
                        b.as_str(),
                        " != kv_dim=",
                        c.as_str(),
                    ),
                ),
            );
        }
        proof {
            assert(self.layers@[layer_idx as int].wf(self.kv_dim as int));
            assert(self@.layers[layer_idx as int] == self.layers@[layer_idx as int].pairs(
                self.kv_dim as int,
            ));
        }
        if self.layers[layer_idx].k_scales.len() >= self.max_seq_len {
            let a = decimal(layer_idx as u64);
            let b = decimal(self.max_seq_len as u64);
            return Err(
                WillametteError::GgufParse(
                    cat4(
                        "KVCache::append: layer ",
                        a.as_str(),
                        " already at max_seq_len ",
                        b.as_str(),
                    ),
                ),
            );
        }
        let ghost before = *self;
        let ghost dim = self.kv_dim as int;
        self.layers[layer_idx].push(k, v, Ghost(dim));
        proof {
            let l = layer_idx as int;
            let made = self.layers@[l].pairs(dim);
            assert(made.len() == before.layers@[l].pairs(dim).len() + 1);
            assert forall|i: int| 0 <= i < self.layers@.len() implies (
            #[trigger] self.layers@[i]).wf(dim) && self.layers@[i].k_scales@.len()
                <= self.max_seq_len by {
                if i != l {
                    assert(before.layers@[i].wf(dim));
                    assert(self.layers@[i] == before.layers@[i]);
                }
            }
            assert(self@.layers =~= before@.layers.update(l, made));
        }
        Ok(())
    }

    /// Checks that a number of positions can be added to all layers, and gives
    /// how many there are.
    pub fn validate_append(&self, n_layers: usize, kv_dim: usize, tokens: usize) -> (r: Result<
        usize,
        WillametteError,
    >)
        requires
            self.wf(),
        ensures
            match r {
                Ok(n) => self@.chunk_fault(n_layers as int, kv_dim as int, tokens as int) is None
                    && n == self@.position() && n + tokens <= usize::MAX,
                Err(e) => self@.chunk_fault(n_layers as int, kv_dim as int, tokens as int) == Some(
                    e@,
                ),
            },
    {
        if self.n_layers != n_layers {
            let a = decimal(self.n_layers as u64);
            let b = decimal(n_layers as u64);
            return Err(
                WillametteError::GgufParse(
                    cat4(
                        "KVCache::validate_append: n_layers ",
                        a.as_str(),
                        " != model layers ",
                        b.as_str(),
                    ),
                ),
            );
        }
        if self.kv_dim != kv_dim {
            let a = decimal(self.kv_dim as u64);
            let b = decimal(kv_dim as u64);
            return Err(
                WillametteError::GgufParse(
                    cat4(
                        "KVCache::validate_append: kv_dim ",
                        a.as_str(),
                        " != model kv_dim ",
                        b.as_str(),
                    ),
                ),
            );
        }
        let position = self.position();
        let mut l: usize = 0;
        while l < self.layers.len()
            invariant
                l <= self.layers@.len(),
                self.wf(),
                self@.layers.len() == n_layers,
                self@.kv_dim == kv_dim,
                position == self@.position(),
                forall|i: int| 0 <= i < l ==> (#[trigger] self@.layers[i]).len() == position,
            decreases self.layers.len() - l,
        {
            proof {
                assert(self@.layers[l as int] == self.layers@[l as int].pairs(
                    self.kv_dim as int,
                ));
            }
            if self.layers[l].k_scales.len() != position {
                proof {
                    assert(self@.layers[l as int].len() != self@.position());
                }
                return Err(
                    WillametteError::GgufParse(
                        owned("KVCache::validate_append: layers are out of step"),
                    ),
                );
            }
            l = l + 1;
        }
        if tokens > self.max_seq_len - position {
            let a = decimal(position as u64);
            let b = decimal(tokens as u64);
            let c = decimal(self.max_seq_len as u64);
            return Err(
                WillametteError::GgufParse(
                    cat6(
                        "KVCache::validate_append: position ",
                        a.as_str(),
                        " + tokens ",
                        b.as_str(),
                        " > max_seq_len ",
                        c.as_str(),
                    ),
                ),
            );
        }
        Ok(position)
    }

    /// The keys and values of a layer, element by element: each byte with its
    /// scale.
    pub fn read_into(
        &self,
        layer_idx: usize,
        out_k: &mut Vec<(i8, u32)>,
        out_v: &mut Vec<(i8, u32)>,
    ) -> (r: Result<(), WillametteError>)
        requires
            self.wf(),
        ensures
            match r {
                Ok(_) => {
                    &&& layer_idx < self@.layers.len()
                    &&& final(out_k)@ == key_elements(
                        self@.layers[layer_idx as int],
                        self@.kv_dim,
                    )
                    &&& final(out_v)@ == value_elements(
                        self@.layers[layer_idx as int],
                        self@.kv_dim,
                    )
                },
                Err(e) => {
                    &&& layer_idx >= self@.layers.len()
                    &&& e@ == Fault::GgufParse(
                        "KVCache::read_into: layer_idx "@ + dec(layer_idx as int)
                            + " >= n_layers "@ + dec(self@.layers.len() as int),
                    )
                    &&& final(out_k)@ == old(out_k)@
                    &&& final(out_v)@ == old(out_v)@
                },
            },
    {
        if layer_idx >= self.n_layers {
            let a = decimal(layer_idx as u64);
            let b = decimal(self.n_layers as u64);
            return Err(
                WillametteError::GgufParse(
                    cat4("KVCache::read_into: layer_idx ", a.as_str(), " >= n_layers ", b.as_str()),
                ),
            );
        }
        let layer = &self.layers[layer_idx];
        let ghost pairs = self@.layers[layer_idx as int];
        let ghost dim = self.kv_dim as int;
        proof {
            assert(layer.wf(dim));
            assert(pairs == layer.pairs(dim));
        }
        let keys = spread(&layer.k_quant, &layer.k_scales, self.kv_dim);
        let values = spread(&layer.v_quant, &layer.v_scales, self.kv_dim);
        proof {
            let n = layer.k_scales@.len() as int;
            assert forall|i: int| 0 <= i < n * dim implies key_elements(pairs, dim)[i] == keys@[i]
                && value_elements(pairs, dim)[i] == values@[i] by {
                lemma_back(n, dim, i);
                let p = i / dim;
                let d = i % dim;
                assert(pairs[p] == layer.pair(dim, p));
                assert(0 <= p * dim && p * dim + dim <= n * dim) by (nonlinear_arith)
                    requires
                        0 <= p < n,
                        dim > 0,
                ;
                assert(layer.k_quant@.subrange(p * dim, p * dim + dim)[d] == layer.k_quant@[i]);
                assert(layer.v_quant@.subrange(p * dim, p * dim + dim)[d] == layer.v_quant@[i]);
            }
            assert(key_elements(pairs, dim) =~= keys@);
            assert(value_elements(pairs, dim) =~= values@);
        }
        *out_k = keys;
        *out_v = values;
        Ok(())
    }

    /// Removes all positions.
    pub fn reset(&mut self)
        requires
            old(self).wf(),
        ensures
            final(self).wf(),
            final(self)@ == old(self)@.emptied(),
    {
        let fresh = KVCache::new(self.n_layers, self.kv_dim, self.max_seq_len);
        proof {
            assert(fresh@ =~= self@.emptied());
        }
        *self = fresh;
    }

    /// How many positions each layer holds.
    pub fn checkpoint(&self) -> (r: Vec<usize>)
        requires
            self.wf(),
        ensures
            r@.map_values(|n: usize| n as nat) == self@.lengths(),
    {
        let mut r: Vec<usize> = Vec::new();
        let mut l: usize = 0;
        while l < self.layers.len()
            invariant
                l <= self.layers@.len(),
                self.wf(),
                r@.len() == l,
                forall|i: int| 0 <= i < l ==> #[trigger] r@[i] == self@.layers[i].len(),
            decreases self.layers.len() - l,
        {
            let n: usize = self.layers[l].k_scales.len();
            proof {
                assert(self@.layers[l as int] == self.layers@[l as int].pairs(
                    self.kv_dim as int,
                ));
            }
            r.push(n);
            l = l + 1;
        }
        proof {
            assert(r@.map_values(|n: usize| n as nat) =~= self@.lengths());
        }
        r
    }

    /// Removes what was added since the layers held so many positions.
    pub fn rollback(&mut self, checkpoint: &Vec<usize>)
        requires
            old(self).wf(),
        ensures
            final(self).wf(),
            final(self)@ == old(self)@.cut_back(checkpoint@.map_values(|n: usize| n as nat)),
    {
        let ghost before = *self;
        let ghost lengths = checkpoint@.map_values(|n: usize| n as nat);
        let ghost wanted = before@.cut_back(lengths);
        let ghost dim = self.kv_dim as int;
        let limit: usize = if checkpoint.len() < self.layers.len() {
            checkpoint.len()
        } else {
            self.layers.len()
        };
        let mut l: usize = 0;
        while l < limit
            invariant
                l <= limit,
                limit <= checkpoint@.len(),
                limit <= self.layers@.len(),
                limit == checkpoint@.len() || limit == before.layers@.len(),
                lengths == checkpoint@.map_values(|n: usize| n as nat),
                wanted == before@.cut_back(lengths),
                before.wf(),
                self.wf(),
                self.n_layers == before.n_layers,
                self.kv_dim == before.kv_dim,
                self.max_seq_len == before.max_seq_len,
                dim == self.kv_dim,
                forall|i: int|
                    0 <= i < l ==> (#[trigger] self.layers@[i]).pairs(dim) == wanted.layers[i],
                forall|i: int| l <= i < self.layers@.len() ==> #[trigger] self.layers@[i] == before.layers@[i],
            decreases limit - l,
        {
            let keep: usize = checkpoint[l];
            let width: usize = self.kv_dim;
            let ghost mid = *self;
            proof {
                assert(self.layers@[l as int].wf(dim));
                assert(before@.layers[l as int] == before.layers@[l as int].pairs(dim));
            }
            self.layers[l].truncate(keep, width);
            proof {
                assert forall|i: int| 0 <= i < self.layers@.len() implies (
                #[trigger] self.layers@[i]).wf(dim) && self.layers@[i].k_scales@.len()
                    <= self.max_seq_len by {
                    if i != l {
                        assert(mid.layers@[i].wf(dim));
                        assert(self.layers@[i] == mid.layers@[i]);
                    } else {
                        assert(self.layers@[i].pairs(dim).len() <= mid.layers@[i].pairs(dim).len());
                    }
                }
                assert(lengths[l as int] == keep as nat);
            }
            l = l + 1;
        }
        proof {
            assert forall|i: int| 0 <= i < self.layers@.len() implies self@.layers[i]
                == wanted.layers[i] by {
                assert(self@.layers[i] == self.layers@[i].pairs(dim));
                if i >= limit {
                    assert(before@.layers[i] == before.layers@[i].pairs(dim));
                }
            }
            assert(self@.layers =~= wanted.layers);
        }
    }

    /// How many bytes the bytes and scales of all layers take.
    pub fn resident_bytes(&self) -> (n: usize)
        requires
            self.wf(),
            bytes_of_layers(self@, self@.layers.len() as int) <= usize::MAX,
        ensures
            n == bytes_of_layers(self@, self@.layers.len() as int),
    {
        let mut total: usize = 0;
        let mut l: usize = 0;
        while l < self.layers.len()
            invariant
                l <= self.layers@.len(),
                self.wf(),
                self@.layers.len() == self.layers@.len(),
                bytes_of_layers(self@, self@.layers.len() as int) <= usize::MAX,
                total == bytes_of_layers(self@, l as int),
            decreases self.layers.len() - l,
        {
            let layer = &self.layers[l];
            proof {
                assert(layer.wf(self.kv_dim as int));
                assert(self@.layers[l as int] == layer.pairs(self.kv_dim as int));
                lemma_bytes_grow(self@, l + 1, self@.layers.len() as int);
                let n = layer.k_scales@.len() as int;
                let d = self.kv_dim as int;
                assert(n * d >= 0) by (nonlinear_arith)
                    requires
                        n >= 0,
                        d >= 0,
                ;
            }
            total = total + (layer.k_quant.len() + layer.v_quant.len() + (layer.k_scales.len()
                + layer.v_scales.len()) * 4);
            l = l + 1;
        }
        total
    }
}

/// How many bytes the first `n` layers take: one for each element of a key or a
/// value, and four for each scale.
pub open spec fn bytes_of_layers(c: CacheState, n: int) -> int
    decreases n,
{
    if n <= 0 {
        0
    } else {
        bytes_of_layers(c, n - 1) + 2 * (c.layers[n - 1].len() * c.kv_dim) + 8
            * c.layers[n - 1].len()
    }
}

/// More layers take no fewer bytes.
proof fn lemma_bytes_grow(c: CacheState, n: int, m: int)
    requires
        0 <= n <= m,
        c.kv_dim >= 0,
    ensures
        0 <= bytes_of_layers(c, n) <= bytes_of_layers(c, m),
    decreases m,
{
    if m > 0 {
        if n < m {
            lemma_bytes_grow(c, n, m - 1);
        } else {
            lemma_bytes_grow(c, n - 1, m - 1);
        }
        let len = c.layers[m - 1].len() as int;
        assert(len * c.kv_dim >= 0) by (nonlinear_arith)
            requires
                len >= 0,
                c.kv_dim >= 0,
        ;
    }
}

/// The vector and the place in it of an element in a row of vectors.
proof fn lemma_back(n: int, dim: int, i: int)
    requires
        0 <= i < n * dim,
        0 <= n,
        0 <= dim,
    ensures
        dim > 0,
        0 <= i / dim < n,
        0 <= i % dim < dim,
        i == (i / dim) * dim + i % dim,
{
    assert(dim > 0) by (nonlinear_arith)
        requires
            0 <= i < n * dim,
            0 <= dim,
    ;
    lemma_fundamental_div_mod(i, dim);
    lemma_mod_bound(i, dim);
    let q = i / dim;
    let r = i % dim;
    assert(dim * q == q * dim) by (nonlinear_arith);
    assert(0 <= q < n) by (nonlinear_arith)
        requires
            i == q * dim + r,
            0 <= r < dim,
            0 <= i < n * dim,
            dim > 0,
    ;
}

/// Each byte of a row of vectors with the scale of its vector.
fn spread(quants: &Vec<i8>, scales: &Vec<u32>, width: usize) -> (r: Vec<(i8, u32)>)
    requires
        quants@.len() == scales@.len() * width,
    ensures
        r@.len() == quants@.len(),
        forall|i: int|
            0 <= i < r@.len() ==> #[trigger] r@[i] == (quants@[i], scales@[i / (width as int)]),
{
    let mut r: Vec<(i8, u32)> = Vec::new();
    let mut i: usize = 0;
    while i < quants.len()
        invariant
            i <= quants@.len(),
            quants@.len() == scales@.len() * width,
            r@.len() == i,
            forall|k: int|
                0 <= k < i ==> #[trigger] r@[k] == (quants@[k], scales@[k / (width as int)]),
        decreases quants.len() - i,
    {
        proof {
            lemma_back(scales@.len() as int, width as int, i as int);
        }
        r.push((quants[i], scales[i / width]));
        i = i + 1;
    }
    r
}

/// A cache whose layers all hold `positions` positions takes, for each of them in each
/// layer, one byte for each element of the key and of the value and four for either scale.
pub proof fn full_layers_take_their_bytes(c: CacheState, n: int, positions: int)
    requires
        0 <= n <= c.layers.len(),
        forall|l: int| 0 <= l < n ==> (#[trigger] c.layers[l]).len() == positions,
    ensures
        bytes_of_layers(c, n) == n * (positions * (c.kv_dim + 4 + c.kv_dim + 4)),
    decreases n,
{
    if n > 0 {
        full_layers_take_their_bytes(c, n - 1, positions);
        let w = c.kv_dim;
        let each = positions * (w + 4 + w + 4);
        assert(c.layers[n - 1].len() == positions);
        assert(2 * (positions * w) + 8 * positions == each) by (nonlinear_arith)
            requires
                each == positions * (w + 4 + w + 4),
        ;
        assert((n - 1) * each + each == n * each) by (nonlinear_arith);
    } else {
        assert(0 * (positions * (c.kv_dim + 4 + c.kv_dim + 4)) == 0) by (nonlinear_arith);
    }
}

/// A pair goes to the end of its layer, and the other layers stay as they are; without its
/// positions a cache holds nothing, and its limits stay.
pub proof fn pairs_go_to_the_end(c: CacheState, layer: int, pair: Pair, l: int)
    requires
        0 <= layer < c.layers.len(),
        0 <= l < c.layers.len(),
    ensures
        c.with(layer, pair).layers[layer].last() == pair,
        c.with(layer, pair).layers[layer].drop_last() == c.layers[layer],
        l != layer ==> c.with(layer, pair).layers[l] == c.layers[l],
        c.emptied().layers.len() == c.layers.len(),
        c.emptied().layers[l].len() == 0,
        c.emptied().position() == 0,
        c.emptied().kv_dim == c.kv_dim,
        c.emptied().max_seq_len == c.max_seq_len,
        c.with(layer, pair).max_seq_len == c.max_seq_len,
        c.with(layer, pair).kv_dim == c.kv_dim,
        c.position() == c.layers[0].len(),
{
    assert(c.with(layer, pair).layers[layer].drop_last() =~= c.layers[layer]);
}


} // verus!
