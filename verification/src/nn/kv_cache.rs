//! Key/value cache for autoregressive decoding.
//!
//! Each layer keeps two row-major `[batch, n_heads, max_seq, head_dim]`
//! buffers, allocated once for the longest sequence expected. New positions
//! are written behind the valid prefix of length `current_len`; `advance`
//! then moves that mark once every layer has been written.
use crate::blocks;
use crate::text;
use crate::text::Text;
use vstd::prelude::*;

verus! {

/// What a layer of the cache holds: two buffers of the same four axes.
#[verifier::ext_equal]
pub struct LayerModel<T> {
    pub k: Seq<T>,
    pub v: Seq<T>,
    pub batch: nat,
    pub n_heads: nat,
    pub max_seq: nat,
    pub head_dim: nat,
}

impl<T> LayerModel<T> {
    /// Number of elements in each buffer.
    pub open spec fn numel(self) -> nat {
        self.batch * self.n_heads * self.max_seq * self.head_dim
    }

    /// Both buffers have exactly the elements of their four axes, and no
    /// partial product of the axes leaves the machine range.
    pub open spec fn wf(self) -> bool {
        &&& self.batch * self.n_heads <= usize::MAX
        &&& self.batch * self.n_heads * self.max_seq <= usize::MAX
        &&& self.numel() <= usize::MAX
        &&& self.k.len() == self.numel()
        &&& self.v.len() == self.numel()
    }

    /// `[b, h, s, d]` names an element.
    pub open spec fn in_range(self, b: int, h: int, s: int, d: int) -> bool {
        0 <= b < self.batch && 0 <= h < self.n_heads && 0 <= s < self.max_seq && 0 <= d
            < self.head_dim
    }

    /// The key element `[b, h, s, d]`.
    pub open spec fn k_at(self, b: int, h: int, s: int, d: int) -> T {
        self.k[blocks::at4(b, h, s, d, self.n_heads as int, self.max_seq as int, self.head_dim as int)]
    }

    /// The value element `[b, h, s, d]`.
    pub open spec fn v_at(self, b: int, h: int, s: int, d: int) -> T {
        self.v[blocks::at4(b, h, s, d, self.n_heads as int, self.max_seq as int, self.head_dim as int)]
    }

    pub open spec fn same_dims(self, other: Self) -> bool {
        self.batch == other.batch && self.n_heads == other.n_heads && self.max_seq == other.max_seq
            && self.head_dim == other.head_dim
    }

    /// `self` is `before` with the `[batch, n_heads, added, head_dim]` rows
    /// `new_k` and `new_v` written at the sequence positions
    /// `cur .. cur + added`, and nothing else changed.
    pub open spec fn is_append(
        self,
        before: Self,
        cur: nat,
        added: nat,
        new_k: Seq<T>,
        new_v: Seq<T>,
    ) -> bool {
        &&& self.same_dims(before)
        &&& self.k.len() == before.k.len()
        &&& self.v.len() == before.v.len()
        &&& forall|b: int, h: int, s: int, d: int|
            self.in_range(b, h, s, d) ==> #[trigger] self.k_at(b, h, s, d) == (if cur <= s < cur + added {
                new_k[blocks::at4(b, h, s - cur, d, self.n_heads as int, added as int, self.head_dim as int)]
            } else {
                before.k_at(b, h, s, d)
            })
        &&& forall|b: int, h: int, s: int, d: int|
            self.in_range(b, h, s, d) ==> #[trigger] self.v_at(b, h, s, d) == (if cur <= s < cur + added {
                new_v[blocks::at4(b, h, s - cur, d, self.n_heads as int, added as int, self.head_dim as int)]
            } else {
                before.v_at(b, h, s, d)
            })
    }
}

/// What the whole cache holds.
#[verifier::ext_equal]
pub struct CacheModel<T> {
    pub layers: Seq<LayerModel<T>>,
    pub current_len: nat,
    pub max_seq: nat,
}

impl<T> CacheModel<T> {
    /// Every layer is well formed and sized for `max_seq` positions, all
    /// layers have the same axes, and the valid prefix fits.
    pub open spec fn wf(self) -> bool {
        &&& self.current_len <= self.max_seq
        &&& self.layers.len() <= usize::MAX
        &&& self.max_seq <= usize::MAX
        &&& forall|i: int|
            0 <= i < self.layers.len() ==> {
                &&& (#[trigger] self.layers[i]).wf()
                &&& self.layers[i].max_seq == self.max_seq
                &&& self.layers[i].same_dims(self.layers[0])
            }
    }

    /// The error that `append` reports, or `None` where it succeeds.
    pub open spec fn append_error(
        self,
        layer_idx: usize,
        seq_added: usize,
        k_len: usize,
        v_len: usize,
    ) -> Option<KVCacheError> {
        if layer_idx >= self.layers.len() {
            Some(
                KVCacheError::LayerOutOfRange {
                    layer: layer_idx,
                    num_layers: self.layers.len() as usize,
                },
            )
        } else if self.current_len + seq_added > self.max_seq {
            Some(
                KVCacheError::Overflow {
                    requested: (self.current_len + seq_added) as usize,
                    max: self.max_seq as usize,
                },
            )
        } else {
            let l = self.layers[layer_idx as int];
            let expected = l.batch * l.n_heads * seq_added * l.head_dim;
            if k_len != expected || v_len != expected {
                Some(
                    KVCacheError::WrongInputLen {
                        expected: expected as usize,
                        got_k: k_len,
                        got_v: v_len,
                    },
                )
            } else {
                None
            }
        }
    }
}

/// Errors raised by the cache.
#[derive(Debug, Clone, PartialEq, Eq, Structural)]
pub enum KVCacheError {
    /// More positions were asked for than the cache was sized for.
    Overflow {
        /// Requested new total length.
        requested: usize,
        /// Maximum the cache was sized for.
        max: usize,
    },
    /// An input slice has the wrong length.
    WrongInputLen {
        /// Expected `batch * n_heads * seq_added * head_dim`.
        expected: usize,
        /// Actual K input length.
        got_k: usize,
        /// Actual V input length.
        got_v: usize,
    },
    /// Layer index out of bounds.
    LayerOutOfRange {
        /// Requested.
        layer: usize,
        /// Number of layers in the cache.
        num_layers: usize,
    },
    /// The cache buffer is shared and cannot be written.
    Aliased,
}

impl KVCacheError {
    /// The text of the error.
    pub open spec fn text(self) -> Seq<char> {
        match self {
            KVCacheError::Overflow { requested, max } => "kv_cache overflow: requested "@ + text::decimal(
                requested as nat,
            ) + " positions, max "@ + text::decimal(max as nat),
            KVCacheError::WrongInputLen { expected, got_k, got_v } => "kv_cache append: expected "@
                + text::decimal(expected as nat) + " f32, got K="@ + text::decimal(got_k as nat) + " V="@
                + text::decimal(got_v as nat),
            KVCacheError::LayerOutOfRange { layer, num_layers } => "kv_cache layer "@ + text::decimal(
                layer as nat,
            ) + " out of range (have "@ + text::decimal(num_layers as nat) + ")"@,
            KVCacheError::Aliased => "kv_cache: tensor was aliased"@,
        }
    }

    /// Renders the error for a reader.
    pub fn message(&self) -> (r: String)
        ensures
            r@ == self.text(),
    {
        match self {
            KVCacheError::Overflow { requested, max } => Text::start("kv_cache overflow: requested ").num(
                *requested,
            ).lit(" positions, max ").num(*max).finish(),
            KVCacheError::WrongInputLen { expected, got_k, got_v } => Text::start(
                "kv_cache append: expected ",
            ).num(*expected).lit(" f32, got K=").num(*got_k).lit(" V=").num(*got_v).finish(),
            KVCacheError::LayerOutOfRange { layer, num_layers } => Text::start(
                "kv_cache layer ",
            ).num(*layer).lit(" out of range (have ").num(*num_layers).lit(")").finish(),
            KVCacheError::Aliased => Text::start("kv_cache: tensor was aliased").finish(),
        }
    }
}

/// Key and value buffers of one transformer layer.
pub struct KVLayerCache<T> {
    k: Vec<T>,
    v: Vec<T>,
    batch: usize,
    n_heads: usize,
    max_seq: usize,
    head_dim: usize,
}

impl<T> View for KVLayerCache<T> {
    type V = LayerModel<T>;

    closed spec fn view(&self) -> LayerModel<T> {
        LayerModel {
            k: self.k@,
            v: self.v@,
            batch: self.batch as nat,
            n_heads: self.n_heads as nat,
            max_seq: self.max_seq as nat,
            head_dim: self.head_dim as nat,
        }
    }
}

/// The element forms of a block-wise append.
proof fn lemma_append_rows<T>(
    before: Seq<T>,
    after: Seq<T>,
    new: Seq<T>,
    n_b: int,
    n_h: int,
    n_s: int,
    n_d: int,
    cur: int,
    added: int,
)
    requires
        0 <= n_b && 0 <= n_h && 0 <= n_s && 0 <= n_d,
        0 <= cur && 0 <= added && cur + added <= n_s,
        forall|j: int, r: int|
            0 <= j < n_b * n_h && 0 <= r < n_s * n_d ==> #[trigger] after[blocks::at(j, n_s * n_d, r)] == (if cur
                * n_d <= r < cur * n_d + added * n_d {
                new[blocks::at(j, added * n_d, r - cur * n_d)]
            } else {
                before[blocks::at(j, n_s * n_d, r)]
            }),
    ensures
        forall|b: int, h: int, s: int, d: int|
            0 <= b < n_b && 0 <= h < n_h && 0 <= s < n_s && 0 <= d < n_d
                ==> #[trigger] after[blocks::at4(b, h, s, d, n_h, n_s, n_d)] == (if cur <= s < cur + added {
                new[blocks::at4(b, h, s - cur, d, n_h, added, n_d)]
            } else {
                before[blocks::at4(b, h, s, d, n_h, n_s, n_d)]
            }),
{
    assert forall|b: int, h: int, s: int, d: int|
        0 <= b < n_b && 0 <= h < n_h && 0 <= s < n_s && 0 <= d
            < n_d implies #[trigger] after[blocks::at4(b, h, s, d, n_h, n_s, n_d)] == (if cur <= s < cur
        + added {
        new[blocks::at4(b, h, s - cur, d, n_h, added, n_d)]
    } else {
        before[blocks::at4(b, h, s, d, n_h, n_s, n_d)]
    }) by {
        blocks::lemma_at4(b, h, s, d, n_b, n_h, n_s, n_d);
        let j = b * n_h + h;
        let r = s * n_d + d;
        assert(after[blocks::at(j, n_s * n_d, r)] == after[blocks::at4(b, h, s, d, n_h, n_s, n_d)]);
        if cur <= s < cur + added {
            blocks::lemma_at4(b, h, s - cur, d, n_b, n_h, added, n_d);
            assert((s - cur) * n_d == s * n_d - cur * n_d) by (nonlinear_arith);
            assert(0 <= (s - cur) * n_d + d < added * n_d);
        } else if s < cur {
            assert(s * n_d + d < cur * n_d) by (nonlinear_arith)
                requires
                    s + 1 <= cur,
                    0 <= d < n_d,
            ;
        } else {
            assert((cur + added) * n_d <= s * n_d) by (nonlinear_arith)
                requires
                    cur + added <= s,
                    0 <= n_d,
            ;
            assert((cur + added) * n_d == cur * n_d + added * n_d) by (nonlinear_arith);
        }
    }
}

impl<T: Copy> KVLayerCache<T> {
    fn new(batch: usize, n_heads: usize, max_seq: usize, head_dim: usize, zero: T) -> (r: Self)
        requires
            batch * n_heads <= usize::MAX,
            batch * n_heads * max_seq <= usize::MAX,
            batch * n_heads * max_seq * head_dim <= usize::MAX,
        ensures
            r@.wf(),
            r@.batch == batch,
            r@.n_heads == n_heads,
            r@.max_seq == max_seq,
            r@.head_dim == head_dim,
            r@.k == Seq::new((batch * n_heads * max_seq * head_dim) as nat, |i: int| zero),
            r@.v == r@.k,
    {
        let n: usize = batch * n_heads * max_seq * head_dim;
        KVLayerCache { k: blocks::filled(zero, n), v: blocks::filled(zero, n), batch, n_heads, max_seq, head_dim }
    }

    /// Writes `seq_added` new positions at offset `current_len`. Both inputs
    /// are row-major `[batch, n_heads, seq_added, head_dim]`.
    fn append(
        &mut self,
        current_len: usize,
        seq_added: usize,
        new_k: &[T],
        new_v: &[T],
    ) -> (r: Result<(), KVCacheError>)
        requires
            old(self)@.wf(),
            current_len + seq_added <= usize::MAX,
        ensures
            final(self)@.wf(),
            match r {
                Ok(()) => {
                    let n = old(self)@.batch * old(self)@.n_heads * seq_added * old(self)@.head_dim;
                    &&& current_len + seq_added <= old(self)@.max_seq
                    &&& new_k@.len() == n
                    &&& new_v@.len() == n
                    &&& final(self)@.is_append(
                        old(self)@,
                        current_len as nat,
                        seq_added as nat,
                        new_k@,
                        new_v@,
                    )
                },
                Err(e) => {
                    let n = old(self)@.batch * old(self)@.n_heads * seq_added * old(self)@.head_dim;
                    &&& final(self)@ == old(self)@
                    &&& if current_len + seq_added > old(self)@.max_seq {
                        e == (KVCacheError::Overflow {
                            requested: (current_len + seq_added) as usize,
                            max: old(self)@.max_seq as usize,
                        })
                    } else {
                        &&& new_k@.len() != n || new_v@.len() != n
                        &&& e == (KVCacheError::WrongInputLen {
                            expected: n as usize,
                            got_k: new_k@.len() as usize,
                            got_v: new_v@.len() as usize,
                        })
                    }
                },
            },
    {
        if current_len + seq_added > self.max_seq {
            return Err(
                KVCacheError::Overflow { requested: current_len + seq_added, max: self.max_seq },
            );
        }
        let ghost n_b = self.batch as int;
        let ghost n_h = self.n_heads as int;
        let ghost n_s = self.max_seq as int;
        let ghost n_d = self.head_dim as int;
        let ghost bh = n_b * n_h;
        proof {
            let added = seq_added as int;
            assert(0 <= bh) by (nonlinear_arith)
                requires
                    bh == n_b * n_h,
                    0 <= n_b,
                    0 <= n_h,
            ;
            assert(0 <= bh * added <= bh * n_s) by (nonlinear_arith)
                requires
                    0 <= bh,
                    0 <= added <= n_s,
            ;
            assert(0 <= bh * added * n_d <= bh * n_s * n_d) by (nonlinear_arith)
                requires
                    0 <= bh * added <= bh * n_s,
                    0 <= n_d,
            ;
        }
        let n: usize = self.batch * self.n_heads * seq_added * self.head_dim;
        if new_k.len() != n || new_v.len() != n {
            return Err(
                KVCacheError::WrongInputLen {
                    expected: n,
                    got_k: new_k.len(),
                    got_v: new_v.len(),
                },
            );
        }
        if self.batch == 0 || self.n_heads == 0 {
            proof {
                assert(bh == 0) by (nonlinear_arith)
                    requires
                        bh == n_b * n_h,
                        n_b == 0 || n_h == 0,
                ;
            }
            return Ok(());
        }
        proof {
            let added = seq_added as int;
            let cur = current_len as int;
            assert(bh >= 1) by (nonlinear_arith)
                requires
                    bh == n_b * n_h,
                    n_b >= 1,
                    n_h >= 1,
            ;
            assert(bh * n_s * n_d == bh * (n_s * n_d)) by (nonlinear_arith);
            assert(bh * added * n_d == bh * (added * n_d)) by (nonlinear_arith);
            assert(n_s * n_d <= bh * (n_s * n_d)) by (nonlinear_arith)
                requires
                    bh >= 1,
                    0 <= n_s,
                    0 <= n_d,
            ;
            assert(cur * n_d + added * n_d <= n_s * n_d) by (nonlinear_arith)
                requires
                    cur + added <= n_s,
                    0 <= n_d,
            ;
            assert(0 <= cur * n_d && 0 <= added * n_d) by (nonlinear_arith)
                requires
                    0 <= cur,
                    0 <= added,
                    0 <= n_d,
            ;
        }
        let w: usize = self.max_seq * self.head_dim;
        let lo: usize = current_len * self.head_dim;
        let row: usize = seq_added * self.head_dim;
        let count: usize = self.batch * self.n_heads;
        blocks::scatter_blocks(&mut self.k, w, lo, new_k, row, count);
        blocks::scatter_blocks(&mut self.v, w, lo, new_v, row, count);
        proof {
            lemma_append_rows(
                old(self).k@,
                self.k@,
                new_k@,
                n_b,
                n_h,
                n_s,
                n_d,
                current_len as int,
                seq_added as int,
            );
            lemma_append_rows(
                old(self).v@,
                self.v@,
                new_v@,
                n_b,
                n_h,
                n_s,
                n_d,
                current_len as int,
                seq_added as int,
            );
        }
        Ok(())
    }
}

/// The caches of all layers, with the length of the valid prefix.
pub struct KVCache<T> {
    layers: Vec<KVLayerCache<T>>,
    current_len: usize,
    max_seq: usize,
}

impl<T> View for KVCache<T> {
    type V = CacheModel<T>;

    closed spec fn view(&self) -> CacheModel<T> {
        CacheModel {
            layers: Seq::new(self.layers@.len(), |i: int| self.layers@[i]@),
            current_len: self.current_len as nat,
            max_seq: self.max_seq as nat,
        }
    }
}

impl<T: Copy> KVCache<T> {
    /// An empty cache of `num_layers` layers whose buffers hold `zero`.
    pub fn new(
        num_layers: usize,
        batch: usize,
        n_heads: usize,
        head_dim: usize,
        max_seq: usize,
        zero: T,
    ) -> (r: Self)
        requires
            num_layers > 0 ==> batch * n_heads <= usize::MAX,
            num_layers > 0 ==> batch * n_heads * max_seq <= usize::MAX,
            num_layers > 0 ==> batch * n_heads * max_seq * head_dim <= usize::MAX,
        ensures
            r@.wf(),
            r@.layers.len() == num_layers,
            r@.current_len == 0,
            r@.max_seq == max_seq,
            forall|i: int|
                0 <= i < num_layers ==> #[trigger] r@.layers[i] == (LayerModel {
                    k: Seq::new((batch * n_heads * max_seq * head_dim) as nat, |p: int| zero),
                    v: Seq::new((batch * n_heads * max_seq * head_dim) as nat, |p: int| zero),
                    batch: batch as nat,
                    n_heads: n_heads as nat,
                    max_seq: max_seq as nat,
                    head_dim: head_dim as nat,
                }),
    {
        let mut layers: Vec<KVLayerCache<T>> = Vec::new();
        let mut i: usize = 0;
        while i < num_layers
            invariant
                i <= num_layers,
                layers@.len() == i,
                num_layers > 0 ==> batch * n_heads <= usize::MAX,
                num_layers > 0 ==> batch * n_heads * max_seq <= usize::MAX,
                num_layers > 0 ==> batch * n_heads * max_seq * head_dim <= usize::MAX,
                forall|j: int|
                    0 <= j < i ==> (#[trigger] layers@[j])@.wf() && layers@[j]@ == (LayerModel {
                        k: Seq::new((batch * n_heads * max_seq * head_dim) as nat, |p: int| zero),
                        v: Seq::new((batch * n_heads * max_seq * head_dim) as nat, |p: int| zero),
                        batch: batch as nat,
                        n_heads: n_heads as nat,
                        max_seq: max_seq as nat,
                        head_dim: head_dim as nat,
                    }),
            decreases num_layers - i,
        {
            layers.push(KVLayerCache::new(batch, n_heads, max_seq, head_dim, zero));
            i += 1;
        }
        KVCache { layers, current_len: 0, max_seq }
    }

    /// Number of layers cached.
    pub fn num_layers(&self) -> (r: usize)
        ensures
            r == self@.layers.len(),
    {
        self.layers.len()
    }

    /// Maximum sequence length the cache was sized for.
    pub fn max_seq(&self) -> (r: usize)
        ensures
            r == self@.max_seq,
    {
        self.max_seq
    }

    /// Number of valid positions.
    pub fn current_len(&self) -> (r: usize)
        ensures
            r == self@.current_len,
    {
        self.current_len
    }

    /// Resets the valid prefix to nothing. The buffers keep their contents.
    pub fn clear(&mut self)
        requires
            old(self)@.wf(),
        ensures
            final(self)@ == (CacheModel { current_len: 0, ..old(self)@ }),
            final(self)@.wf(),
    {
        self.current_len = 0;
        assert(self@.layers =~= old(self)@.layers);
    }

    /// Writes `seq_added` new key and value rows of layer `layer_idx` behind
    /// the valid prefix. The prefix itself is moved by `advance`.
    pub fn append(
        &mut self,
        layer_idx: usize,
        seq_added: usize,
        new_k: &[T],
        new_v: &[T],
    ) -> (r: Result<(), KVCacheError>)
        requires
            old(self)@.wf(),
            layer_idx < old(self)@.layers.len() ==> old(self)@.current_len + seq_added <= usize::MAX,
        ensures
            final(self)@.wf(),
            match r {
                Ok(()) => {
                    &&& old(self)@.append_error(
                        layer_idx,
                        seq_added,
                        new_k@.len() as usize,
                        new_v@.len() as usize,
                    ) is None
                    &&& final(self)@.current_len == old(self)@.current_len
                    &&& final(self)@.max_seq == old(self)@.max_seq
                    &&& final(self)@.layers.len() == old(self)@.layers.len()
                    &&& forall|i: int|
                        0 <= i < old(self)@.layers.len() && i != layer_idx
                            ==> #[trigger] final(self)@.layers[i] == old(self)@.layers[i]
                    &&& final(self)@.layers[layer_idx as int].is_append(
                        old(self)@.layers[layer_idx as int],
                        old(self)@.current_len,
                        seq_added as nat,
                        new_k@,
                        new_v@,
                    )
                },
                Err(e) => {
                    &&& old(self)@.append_error(
                        layer_idx,
                        seq_added,
                        new_k@.len() as usize,
                        new_v@.len() as usize,
                    ) == Some(e)
                    &&& final(self)@ == old(self)@
                },
            },
    {
        let num_layers: usize = self.layers.len();
        let k_len: usize = new_k.len();
        let v_len: usize = new_v.len();
        if layer_idx >= num_layers {
            return Err(KVCacheError::LayerOutOfRange { layer: layer_idx, num_layers });
        }
        let current_len: usize = self.current_len;
        assert(old(self)@.layers[layer_idx as int] == self.layers@[layer_idx as int]@);
        let r = self.layers[layer_idx].append(current_len, seq_added, new_k, new_v);
        proof {
            let before = old(self)@;
            let after = self@;
            assert(after.layers[layer_idx as int] == self.layers@[layer_idx as int]@);
            assert forall|i: int| 0 <= i < before.layers.len() && i != layer_idx implies after.layers[i]
                == before.layers[i] by {
                assert(self.layers@[i] == old(self).layers@[i]);
            }
            assert forall|i: int| 0 <= i < after.layers.len() implies {
                &&& (#[trigger] after.layers[i]).wf()
                &&& after.layers[i].max_seq == after.max_seq
                &&& after.layers[i].same_dims(after.layers[0])
            } by {
                assert(before.layers[i].wf() && before.layers[0].wf());
                assert(after.layers[i].same_dims(before.layers[i]));
                assert(after.layers[0].same_dims(before.layers[0]));
            }
            if r is Err {
                assert(after.layers =~= before.layers);
            }
        }
        r
    }

    /// Moves the end of the valid prefix by `seq_added`.
    pub fn advance(&mut self, seq_added: usize) -> (r: Result<(), KVCacheError>)
        requires
            old(self)@.wf(),
            old(self)@.current_len + seq_added <= usize::MAX,
        ensures
            final(self)@.wf(),
            match r {
                Ok(()) => {
                    &&& old(self)@.current_len + seq_added <= old(self)@.max_seq
                    &&& final(self)@ == (CacheModel {
                        current_len: old(self)@.current_len + seq_added as nat,
                        ..old(self)@
                    })
                },
                Err(e) => {
                    &&& old(self)@.current_len + seq_added > old(self)@.max_seq
                    &&& e == (KVCacheError::Overflow {
                        requested: (old(self)@.current_len + seq_added) as usize,
                        max: old(self)@.max_seq as usize,
                    })
                    &&& final(self)@ == old(self)@
                },
            },
    {
        let new_len: usize = self.current_len + seq_added;
        if new_len > self.max_seq {
            return Err(KVCacheError::Overflow { requested: new_len, max: self.max_seq });
        }
        self.current_len = new_len;
        assert(self@.layers =~= old(self)@.layers);
        Ok(())
    }

    /// The key buffer of a layer, in full; only the first `current_len()`
    /// positions along the sequence axis are valid.
    pub fn k_buffer(&self, layer_idx: usize) -> (r: Option<&[T]>)
        ensures
            match r {
                Some(s) => layer_idx < self@.layers.len() && s@ == self@.layers[layer_idx as int].k,
                None => layer_idx >= self@.layers.len(),
            },
    {
        if layer_idx < self.layers.len() {
            Some(self.layers[layer_idx].k.as_slice())
        } else {
            None
        }
    }

    /// The value buffer of a layer. Same layout as `k_buffer`.
    pub fn v_buffer(&self, layer_idx: usize) -> (r: Option<&[T]>)
        ensures
            match r {
                Some(s) => layer_idx < self@.layers.len() && s@ == self@.layers[layer_idx as int].v,
                None => layer_idx >= self@.layers.len(),
            },
    {
        if layer_idx < self.layers.len() {
            Some(self.layers[layer_idx].v.as_slice())
        } else {
            None
        }
    }

    /// The axes of the cache as `(batch, n_heads, max_seq, head_dim)`.
    pub fn dims(&self) -> (r: Option<(usize, usize, usize, usize)>)
        ensures
            match r {
                Some((batch, n_heads, max_seq, head_dim)) => {
                    &&& self@.layers.len() > 0
                    &&& batch == self@.layers[0].batch
                    &&& n_heads == self@.layers[0].n_heads
                    &&& max_seq == self@.layers[0].max_seq
                    &&& head_dim == self@.layers[0].head_dim
                },
                None => self@.layers.len() == 0,
            },
    {
        if self.layers.len() == 0 {
            None
        } else {
            let l = &self.layers[0];
            Some((l.batch, l.n_heads, l.max_seq, l.head_dim))
        }
    }
}

/// A read of an appended position gives back the row that was written there.
pub proof fn law_read_after_append<T>(
    before: LayerModel<T>,
    after: LayerModel<T>,
    cur: nat,
    added: nat,
    new_k: Seq<T>,
    new_v: Seq<T>,
    b: int,
    h: int,
    i: int,
    d: int,
)
    requires
        after.is_append(before, cur, added, new_k, new_v),
        cur + added <= before.max_seq,
        0 <= b < before.batch,
        0 <= h < before.n_heads,
        0 <= i < added,
        0 <= d < before.head_dim,
    ensures
        after.k_at(b, h, cur + i, d) == new_k[blocks::at4(
            b,
            h,
            i,
            d,
            before.n_heads as int,
            added as int,
            before.head_dim as int,
        )],
        after.v_at(b, h, cur + i, d) == new_v[blocks::at4(
            b,
            h,
            i,
            d,
            before.n_heads as int,
            added as int,
            before.head_dim as int,
        )],
{
    assert(after.in_range(b, h, cur + i, d));
}

/// Appending behind the valid prefix leaves every position of the prefix as
/// it was, so a second append behind the first keeps the rows of both.
pub proof fn law_appends_accumulate<T>(
    l0: LayerModel<T>,
    l1: LayerModel<T>,
    l2: LayerModel<T>,
    cur: nat,
    a1: nat,
    k1: Seq<T>,
    v1: Seq<T>,
    a2: nat,
    k2: Seq<T>,
    v2: Seq<T>,
)
    requires
        l1.is_append(l0, cur, a1, k1, v1),
        l2.is_append(l1, cur + a1, a2, k2, v2),
        cur + a1 + a2 <= l0.max_seq,
    ensures
        forall|b: int, h: int, s: int, d: int|
            l0.in_range(b, h, s, d) ==> #[trigger] l2.k_at(b, h, s, d) == (if s < cur {
                l0.k_at(b, h, s, d)
            } else if s < cur + a1 {
                k1[blocks::at4(b, h, s - cur, d, l0.n_heads as int, a1 as int, l0.head_dim as int)]
            } else if s < cur + a1 + a2 {
                k2[blocks::at4(b, h, s - cur - a1, d, l0.n_heads as int, a2 as int, l0.head_dim as int)]
            } else {
                l0.k_at(b, h, s, d)
            }),
        forall|b: int, h: int, s: int, d: int|
            l0.in_range(b, h, s, d) ==> #[trigger] l2.v_at(b, h, s, d) == (if s < cur {
                l0.v_at(b, h, s, d)
            } else if s < cur + a1 {
                v1[blocks::at4(b, h, s - cur, d, l0.n_heads as int, a1 as int, l0.head_dim as int)]
            } else if s < cur + a1 + a2 {
                v2[blocks::at4(b, h, s - cur - a1, d, l0.n_heads as int, a2 as int, l0.head_dim as int)]
            } else {
                l0.v_at(b, h, s, d)
            }),
{
    assert forall|b: int, h: int, s: int, d: int|
        l0.in_range(b, h, s, d) implies #[trigger] l2.k_at(b, h, s, d) == (if s < cur {
        l0.k_at(b, h, s, d)
    } else if s < cur + a1 {
        k1[blocks::at4(b, h, s - cur, d, l0.n_heads as int, a1 as int, l0.head_dim as int)]
    } else if s < cur + a1 + a2 {
        k2[blocks::at4(b, h, s - cur - a1, d, l0.n_heads as int, a2 as int, l0.head_dim as int)]
    } else {
        l0.k_at(b, h, s, d)
    }) by {
        assert(l2.in_range(b, h, s, d) && l1.in_range(b, h, s, d));
        assert(l1.k_at(b, h, s, d) == l1.k_at(b, h, s, d));
    }
    assert forall|b: int, h: int, s: int, d: int|
        l0.in_range(b, h, s, d) implies #[trigger] l2.v_at(b, h, s, d) == (if s < cur {
        l0.v_at(b, h, s, d)
    } else if s < cur + a1 {
        v1[blocks::at4(b, h, s - cur, d, l0.n_heads as int, a1 as int, l0.head_dim as int)]
    } else if s < cur + a1 + a2 {
        v2[blocks::at4(b, h, s - cur - a1, d, l0.n_heads as int, a2 as int, l0.head_dim as int)]
    } else {
        l0.v_at(b, h, s, d)
    }) by {
        assert(l2.in_range(b, h, s, d) && l1.in_range(b, h, s, d));
        assert(l1.v_at(b, h, s, d) == l1.v_at(b, h, s, d));
    }
}

/// The description of an append determines the buffers: two outcomes of the
/// same append are equal.
pub proof fn law_append_is_determined<T>(
    before: LayerModel<T>,
    x: LayerModel<T>,
    y: LayerModel<T>,
    cur: nat,
    added: nat,
    new_k: Seq<T>,
    new_v: Seq<T>,
)
    requires
        before.wf(),
        x.is_append(before, cur, added, new_k, new_v),
        y.is_append(before, cur, added, new_k, new_v),
    ensures
        x == y,
{
    let n_h = before.n_heads as int;
    let n_s = before.max_seq as int;
    let n_d = before.head_dim as int;
    assert forall|i: int| 0 <= i < before.numel() implies x.k[i] == y.k[i] && x.v[i] == y.v[i] by {
        let (b, h, s, d) = lemma_at4_covers(
            i,
            before.batch as int,
            n_h,
            n_s,
            n_d,
        );
        assert(x.k_at(b, h, s, d) == y.k_at(b, h, s, d));
        assert(x.v_at(b, h, s, d) == y.v_at(b, h, s, d));
    }
    assert(x.k =~= y.k);
    assert(x.v =~= y.v);
}

/// Every flat position is that of some `[b, h, s, d]`.
proof fn lemma_at4_covers(i: int, n_b: int, n_h: int, n_s: int, n_d: int) -> (r: (
    int,
    int,
    int,
    int,
))
    requires
        0 <= n_b && 0 <= n_h && 0 <= n_s && 0 <= n_d,
        0 <= i < n_b * n_h * n_s * n_d,
    ensures
        0 <= r.0 < n_b,
        0 <= r.1 < n_h,
        0 <= r.2 < n_s,
        0 <= r.3 < n_d,
        i == blocks::at4(r.0, r.1, r.2, r.3, n_h, n_s, n_d),
{
    assert(0 < n_d && 0 < n_s && 0 < n_h) by (nonlinear_arith)
        requires
            0 <= n_b && 0 <= n_h && 0 <= n_s && 0 <= n_d,
            0 < n_b * n_h * n_s * n_d,
    ;
    blocks::lemma_at_surjective(i, n_d, n_b * n_h * n_s);
    let rest = i / n_d;
    blocks::lemma_at_surjective(rest, n_s, n_b * n_h);
    let bh = rest / n_s;
    blocks::lemma_at_surjective(bh, n_h, n_b);
    (bh / n_h, bh % n_h, rest % n_s, i % n_d)
}

/// Where `append` reports an overflow for a layer, `advance` refuses the same
/// step, and the other way round.
pub proof fn law_append_and_advance_agree<T>(
    m: CacheModel<T>,
    layer_idx: usize,
    seq_added: usize,
    k_len: usize,
    v_len: usize,
)
    requires
        m.wf(),
        layer_idx < m.layers.len(),
        m.current_len + seq_added <= usize::MAX,
    ensures
        (m.append_error(layer_idx, seq_added, k_len, v_len) matches Some(KVCacheError::Overflow {
            ..
        })) <==> m.current_len + seq_added > m.max_seq,
{
}

/// Where appended rows stand in the buffers: the new rows come as `[batch,
/// heads, added, width]` and stand in `[batch, heads, capacity, width]` behind
/// the rows that were there, keys among the keys and values among the values;
/// every other element stays.
pub proof fn law_rows_stand_behind_the_cached<T>(
    before: LayerModel<T>,
    after: LayerModel<T>,
    cur: nat,
    added: nat,
    new_k: Seq<T>,
    new_v: Seq<T>,
    b: int,
    h: int,
    s: int,
    d: int,
)
    requires
        after.is_append(before, cur, added, new_k, new_v),
        0 <= b < before.batch,
        0 <= h < before.n_heads,
        0 <= s < before.max_seq,
        0 <= d < before.head_dim,
    ensures
        ({
            let to = ((b * before.n_heads + h) * before.max_seq + s) * before.head_dim + d;
            let from = ((b * before.n_heads + h) * added + (s - cur)) * before.head_dim + d;
            let fresh = cur <= s < cur + added;
            &&& after.k[to] == if fresh { new_k[from] } else { before.k[to] }
            &&& after.v[to] == if fresh { new_v[from] } else { before.v[to] }
        }),
{
    assert(after.in_range(b, h, s, d));
    assert(after.k_at(b, h, s, d) == after.k[((b * before.n_heads + h) * before.max_seq + s)
        * before.head_dim + d]);
    assert(after.v_at(b, h, s, d) == after.v[((b * before.n_heads + h) * before.max_seq + s)
        * before.head_dim + d]);
}

/// What the calls do to a cache: rows that are appended stand behind the valid
/// prefix of their layer and of no other, the prefix grows by what it is
/// advanced, and clearing empties it.
pub proof fn law_cache_calls<T: Copy>(
    c: &mut KVCache<T>,
    layer: usize,
    added: usize,
    new_k: &[T],
    new_v: &[T],
    b: int,
    h: int,
    s: int,
    d: int,
)
    requires
        layer < old(c)@.layers.len(),
        0 <= b < old(c)@.layers[layer as int].batch,
        0 <= h < old(c)@.layers[layer as int].n_heads,
        0 <= s < old(c)@.layers[layer as int].max_seq,
        0 <= d < old(c)@.layers[layer as int].head_dim,
    ensures
        call_ensures(KVCache::<T>::append, (c, layer, added, new_k, new_v), Ok(())) ==> {
            let before = old(c)@.layers[layer as int];
            let after = final(c)@.layers[layer as int];
            let cur = old(c)@.current_len;
            let to = ((b * before.n_heads + h) * before.max_seq + s) * before.head_dim + d;
            let from = ((b * before.n_heads + h) * added + (s - cur)) * before.head_dim + d;
            let fresh = cur <= s < cur + added;
            &&& after.k[to] == if fresh { new_k@[from] } else { before.k[to] }
            &&& after.v[to] == if fresh { new_v@[from] } else { before.v[to] }
            &&& final(c)@.current_len == cur
            &&& forall|i: int|
                0 <= i < old(c)@.layers.len() && i != layer ==> #[trigger] final(c)@.layers[i]
                    == old(c)@.layers[i]
        },
        call_ensures(KVCache::<T>::advance, (c, added), Ok(())) ==> {
            &&& final(c)@.current_len == old(c)@.current_len + added
            &&& final(c)@.current_len <= old(c)@.max_seq
            &&& final(c)@.layers == old(c)@.layers
        },
        call_ensures(KVCache::<T>::clear, (c,), ()) ==> {
            &&& final(c)@.current_len == 0
            &&& final(c)@.max_seq == old(c)@.max_seq
            &&& final(c)@.layers.len() == old(c)@.layers.len()
        },
{
    if call_ensures(KVCache::<T>::append, (c, layer, added, new_k, new_v), Ok(())) {
        law_rows_stand_behind_the_cached(
            old(c)@.layers[layer as int],
            final(c)@.layers[layer as int],
            old(c)@.current_len,
            added as nat,
            new_k@,
            new_v@,
            b,
            h,
            s,
            d,
        );
    }
}

/// A new cache has the layers, heads, width and capacity that it was asked for,
/// nothing in it, and one number everywhere.
pub proof fn law_new_cache<T: Copy>(
    layers: usize,
    batch: usize,
    heads: usize,
    width: usize,
    capacity: usize,
    zero: T,
    c: KVCache<T>,
    i: int,
    p: int,
)
    requires
        call_ensures(KVCache::<T>::new, (layers, batch, heads, width, capacity, zero), c),
        0 <= i < layers,
        0 <= p < batch * heads * capacity * width,
    ensures
        c@.layers.len() == layers,
        c@.current_len == 0,
        c@.max_seq == capacity,
        c@.layers[i].batch == batch && c@.layers[i].n_heads == heads,
        c@.layers[i].max_seq == capacity && c@.layers[i].head_dim == width,
        c@.layers[i].k.len() == batch * heads * capacity * width,
        c@.layers[i].v.len() == batch * heads * capacity * width,
        c@.layers[i].k[p] == zero && c@.layers[i].v[p] == zero,
{
}

} // verus!
