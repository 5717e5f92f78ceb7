use vstd::prelude::*;

use crate::tensor::overwrite;

verus! {

/// The abstract content of a cache: its logical length, its capacity in rows, the width of a
/// row, and one key buffer and one value buffer per layer.
pub ghost struct CacheView<T> {
    pub length: nat,
    pub max_seq_len: nat,
    pub dim: nat,
    pub keys: Seq<Seq<T>>,
    pub values: Seq<Seq<T>>,
}

impl<T> CacheView<T> {
    pub open spec fn wf(self) -> bool {
        &&& self.length <= self.max_seq_len
        &&& self.keys.len() == self.values.len()
        &&& forall|l: int|
            0 <= l < self.keys.len() ==> #[trigger] self.keys[l].len() == self.max_seq_len
                * self.dim
        &&& forall|l: int|
            0 <= l < self.values.len() ==> #[trigger] self.values[l].len() == self.max_seq_len
                * self.dim
    }

    /// The cache after `increment(n)`, where that succeeds.
    pub open spec fn advanced(self, n: nat) -> CacheView<T> {
        CacheView { length: self.length + n, ..self }
    }

    /// The cache after `reset_len(n)`, where that succeeds.
    pub open spec fn truncated(self, n: nat) -> CacheView<T> {
        CacheView { length: n, ..self }
    }
}

/// Why a cache operation was refused.
#[derive(Debug, Clone, Copy, PartialEq, Eq, Structural)]
pub enum CacheError {
    /// The new length would pass the cache's capacity.
    ContextOverflow,
    /// A truncation asked to move the length forward.
    BeyondLength,
    /// A write reaches past the end of a layer's buffer, or names a missing layer.
    OutOfRange,
}

/// Per-layer key/value storage of `max_seq_len` rows of `dim` elements, with one logical length
/// shared by all layers.
pub struct KVCache<T> {
    keys: Vec<Vec<T>>,
    values: Vec<Vec<T>>,
    max_seq_len: usize,
    dim: usize,
    length: usize,
}

impl<T> View for KVCache<T> {
    type V = CacheView<T>;

    closed spec fn view(&self) -> CacheView<T> {
        CacheView {
            length: self.length as nat,
            max_seq_len: self.max_seq_len as nat,
            dim: self.dim as nat,
            keys: self.keys@.map_values(|v: Vec<T>| v@),
            values: self.values@.map_values(|v: Vec<T>| v@),
        }
    }
}

impl<T> KVCache<T> {
    /// The abstract cache is well formed and one layer's buffer fits in memory.
    pub open spec fn wf(&self) -> bool {
        &&& self@.wf()
        &&& self@.max_seq_len * self@.dim <= usize::MAX
    }

    /// The logical length: how many positions hold keys and values.
    pub fn len(&self) -> (r: usize)
        ensures
            r == self@.length,
    {
        self.length
    }

    pub fn max_seq_len(&self) -> (r: usize)
        ensures
            r == self@.max_seq_len,
    {
        self.max_seq_len
    }

    pub fn dim(&self) -> (r: usize)
        ensures
            r == self@.dim,
    {
        self.dim
    }

    pub fn n_layers(&self) -> (r: usize)
        ensures
            r == self@.keys.len(),
    {
        self.keys.len()
    }

    /// Advances the length by `n` rows, which the caller has written; refused past capacity.
    pub fn increment(&mut self, n: usize) -> (r: Result<(), CacheError>)
        requires
            old(self).wf(),
        ensures
            final(self).wf(),
            r.is_ok() <==> old(self)@.length + n <= old(self)@.max_seq_len,
            r.is_ok() ==> final(self)@ == old(self)@.advanced(n as nat),
            r.is_err() ==> final(self)@ == old(self)@,
            r matches Err(e) ==> e == CacheError::ContextOverflow,
    {
        if n > self.max_seq_len - self.length {
            return Err(CacheError::ContextOverflow);
        }
        self.length = self.length + n;
        Ok(())
    }

    /// Moves the length back to `n`, leaving the buffers as they are; refused when `n` is
    /// past the current length.
    pub fn reset_len(&mut self, n: usize) -> (r: Result<(), CacheError>)
        requires
            old(self).wf(),
        ensures
            final(self).wf(),
            r.is_ok() <==> n <= old(self)@.length,
            r.is_ok() ==> final(self)@ == old(self)@.truncated(n as nat),
            r.is_err() ==> final(self)@ == old(self)@,
            r matches Err(e) ==> e == CacheError::BeyondLength,
    {
        if n > self.length {
            return Err(CacheError::BeyondLength);
        }
        self.length = n;
        Ok(())
    }

    /// The whole key buffer of a layer, `max_seq_len` rows of `dim` elements.
    pub fn keys(&self, layer: usize) -> (r: &Vec<T>)
        requires
            layer < self@.keys.len(),
        ensures
            r@ == self@.keys[layer as int],
    {
        &self.keys[layer]
    }

    /// The whole value buffer of a layer, `max_seq_len` rows of `dim` elements.
    pub fn values(&self, layer: usize) -> (r: &Vec<T>)
        requires
            layer < self@.values.len(),
        ensures
            r@ == self@.values[layer as int],
    {
        &self.values[layer]
    }
}

/// `buf` with `src` written from `offset` on.
pub open spec fn written<T>(buf: Seq<T>, offset: int, src: Seq<T>) -> Seq<T> {
    buf.subrange(0, offset) + src + buf.subrange(offset + src.len(), buf.len() as int)
}

fn write_layer<T: Copy>(bufs: &mut Vec<Vec<T>>, layer: usize, offset: usize, src: &Vec<T>)
    requires
        layer < old(bufs)@.len(),
        offset + src@.len() <= old(bufs)@[layer as int]@.len(),
    ensures
        final(bufs)@.len() == old(bufs)@.len(),
        forall|l: int|
            0 <= l < old(bufs)@.len() && l != layer ==> #[trigger] final(bufs)@[l] == old(
                bufs,
            )@[l],
        final(bufs)@[layer as int]@ == written(old(bufs)@[layer as int]@, offset as int, src@),
{
    let mut buf = bufs.remove(layer);
    overwrite(&mut buf, offset, src);
    bufs.insert(layer, buf);
}

impl<T: Copy> KVCache<T> {
    /// A cache of `n_layers` layers, each with `max_seq_len` rows of `dim` elements set to
    /// `zero`, and length 0.
    pub fn new(n_layers: usize, max_seq_len: usize, dim: usize, zero: T) -> (r: KVCache<T>)
        requires
            max_seq_len * dim <= usize::MAX,
        ensures
            r.wf(),
            r@.length == 0,
            r@.max_seq_len == max_seq_len,
            r@.dim == dim,
            r@.keys.len() == n_layers,
            forall|l: int|
                0 <= l < n_layers ==> #[trigger] r@.keys[l] == Seq::new(
                    (max_seq_len * dim) as nat,
                    |_i: int| zero,
                ) && r@.values[l] == Seq::new((max_seq_len * dim) as nat, |_i: int| zero),
    {
        let size = max_seq_len * dim;
        let mut keys: Vec<Vec<T>> = Vec::with_capacity(n_layers);
        let mut values: Vec<Vec<T>> = Vec::with_capacity(n_layers);
        let mut l: usize = 0;
        while l < n_layers
            invariant
                l <= n_layers,
                keys@.len() == l,
                values@.len() == l,
                forall|k: int|
                    0 <= k < l ==> #[trigger] keys@[k]@ == Seq::new(size as nat, |_i: int| zero),
                forall|k: int|
                    0 <= k < l ==> #[trigger] values@[k]@ == Seq::new(size as nat, |_i: int| zero),
            decreases n_layers - l,
        {
            keys.push(filled_vec(size, zero));
            values.push(filled_vec(size, zero));
            l = l + 1;
        }
        let r = KVCache { keys, values, max_seq_len, dim, length: 0 };
        proof {
            assert forall|k: int| 0 <= k < n_layers implies #[trigger] r@.keys[k] == Seq::new(
                size as nat,
                |_i: int| zero,
            ) && r@.values[k] == Seq::new(size as nat, |_i: int| zero) by {
                assert(r@.keys[k] == r.keys@[k]@);
                assert(r@.values[k] == r.values@[k]@);
            }
            assert forall|k: int| 0 <= k < r@.keys.len() implies #[trigger] r@.keys[k].len()
                == r@.max_seq_len * r@.dim by {
                assert(r@.keys[k] == r.keys@[k]@);
            }
            assert forall|k: int| 0 <= k < r@.values.len() implies #[trigger] r@.values[k].len()
                == r@.max_seq_len * r@.dim by {
                assert(r@.values[k] == r.values@[k]@);
            }
        }
        r
    }

    /// Writes `rows` into the key buffer of `layer` from element `offset` on.
    pub fn store_keys(&mut self, layer: usize, offset: usize, rows: &Vec<T>) -> (r: Result<
        (),
        CacheError,
    >)
        requires
            old(self).wf(),
        ensures
            final(self).wf(),
            r.is_ok() <==> layer < old(self)@.keys.len() && offset + rows@.len()
                <= old(self)@.max_seq_len * old(self)@.dim,
            r.is_ok() ==> final(self)@ == (CacheView {
                keys: old(self)@.keys.update(
                    layer as int,
                    written(old(self)@.keys[layer as int], offset as int, rows@),
                ),
                ..old(self)@
            }),
            r.is_err() ==> final(self)@ == old(self)@,
            r matches Err(e) ==> e == CacheError::OutOfRange,
    {
        if layer >= self.keys.len() || rows.len() > self.max_seq_len * self.dim || offset
            > self.max_seq_len * self.dim - rows.len() {
            return Err(CacheError::OutOfRange);
        }
        let ghost before = self@;
        write_layer(&mut self.keys, layer, offset, rows);
        proof {
            assert(self@.keys =~= before.keys.update(
                layer as int,
                written(before.keys[layer as int], offset as int, rows@),
            ));
            assert(self@.values =~= before.values);
        }
        Ok(())
    }

    /// Writes `rows` into the value buffer of `layer` from element `offset` on.
    pub fn store_values(&mut self, layer: usize, offset: usize, rows: &Vec<T>) -> (r: Result<
        (),
        CacheError,
    >)
        requires
            old(self).wf(),
        ensures
            final(self).wf(),
            r.is_ok() <==> layer < old(self)@.values.len() && offset + rows@.len()
                <= old(self)@.max_seq_len * old(self)@.dim,
            r.is_ok() ==> final(self)@ == (CacheView {
                values: old(self)@.values.update(
                    layer as int,
                    written(old(self)@.values[layer as int], offset as int, rows@),
                ),
                ..old(self)@
            }),
            r.is_err() ==> final(self)@ == old(self)@,
            r matches Err(e) ==> e == CacheError::OutOfRange,
    {
        if layer >= self.values.len() || rows.len() > self.max_seq_len * self.dim || offset
            > self.max_seq_len * self.dim - rows.len() {
            return Err(CacheError::OutOfRange);
        }
        let ghost before = self@;
        write_layer(&mut self.values, layer, offset, rows);
        proof {
            assert(self@.values =~= before.values.update(
                layer as int,
                written(before.values[layer as int], offset as int, rows@),
            ));
            assert(self@.keys =~= before.keys);
        }
        Ok(())
    }

    /// An independent copy with the same length and contents.
    pub fn deep_copy(&self) -> (r: KVCache<T>)
        requires
            self.wf(),
        ensures
            r.wf(),
            r@ == self@,
    {
        KVCache {
            keys: copy_buffers(&self.keys),
            values: copy_buffers(&self.values),
            max_seq_len: self.max_seq_len,
            dim: self.dim,
            length: self.length,
        }
    }
}

fn filled_vec<T: Copy>(n: usize, value: T) -> (r: Vec<T>)
    ensures
        r@ == Seq::new(n as nat, |_i: int| value),
{
    let mut r: Vec<T> = Vec::with_capacity(n);
    let mut i: usize = 0;
    while i < n
        invariant
            i <= n,
            r@ == Seq::new(i as nat, |_i: int| value),
        decreases n - i,
    {
        r.push(value);
        i = i + 1;
        proof {
            assert(r@ =~= Seq::new(i as nat, |_i: int| value));
        }
    }
    r
}

fn copy_vec<T: Copy>(v: &Vec<T>) -> (r: Vec<T>)
    ensures
        r@ == v@,
{
    let mut r: Vec<T> = Vec::with_capacity(v.len());
    let mut i: usize = 0;
    while i < v.len()
        invariant
            i <= v@.len(),
            r@ == v@.subrange(0, i as int),
        decreases v@.len() - i,
    {
        r.push(v[i]);
        i = i + 1;
        proof {
            assert(r@ =~= v@.subrange(0, i as int));
        }
    }
    proof {
        assert(r@ =~= v@);
    }
    r
}

fn copy_buffers<T: Copy>(bufs: &Vec<Vec<T>>) -> (r: Vec<Vec<T>>)
    ensures
        r@.map_values(|v: Vec<T>| v@) == bufs@.map_values(|v: Vec<T>| v@),
{
    let mut r: Vec<Vec<T>> = Vec::with_capacity(bufs.len());
    let mut i: usize = 0;
    while i < bufs.len()
        invariant
            i <= bufs@.len(),
            r@.len() == i,
            forall|k: int| 0 <= k < i ==> #[trigger] r@[k]@ == bufs@[k]@,
        decreases bufs@.len() - i,
    {
        r.push(copy_vec(&bufs[i]));
        i = i + 1;
    }
    proof {
        assert(r@.map_values(|v: Vec<T>| v@) =~= bufs@.map_values(|v: Vec<T>| v@));
    }
    r
}

/// Writing rows from `offset` on leaves every element before `offset` as it was: after
/// `reset_len(n)`, appending rows at `n * dim` keeps the first `n` rows of each buffer.
pub proof fn lemma_write_keeps_prefix<T>(buf: Seq<T>, offset: int, src: Seq<T>, p: int)
    requires
        0 <= p <= offset,
        offset + src.len() <= buf.len(),
    ensures
        written(buf, offset, src).len() == buf.len(),
        written(buf, offset, src).subrange(0, p) == buf.subrange(0, p),
{
    assert(written(buf, offset, src).subrange(0, p) =~= buf.subrange(0, p));
}

/// Truncating a cache and then advancing it again gives back the length asked for and leaves
/// every key and value buffer as it was.
pub proof fn lemma_reset_then_increment<T>(c: CacheView<T>, n: nat, m: nat)
    requires
        c.wf(),
        n <= c.length,
        n + m <= c.max_seq_len,
    ensures
        c.truncated(n).wf(),
        c.truncated(n).advanced(m).wf(),
        c.truncated(n).advanced(m).length == n + m,
        c.truncated(n).advanced(m).keys == c.keys,
        c.truncated(n).advanced(m).values == c.values,
{
}

} // verus!
