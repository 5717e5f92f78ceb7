use vstd::prelude::*;

verus! {

/// Number of elements of a row-major buffer with the given shape (1 for the empty shape).
pub open spec fn shape_product(s: Seq<usize>) -> int
    decreases s.len(),
{
    if s.len() == 0 {
        1
    } else {
        shape_product(s.drop_last()) * s.last()
    }
}

pub proof fn lemma_product_nonneg(s: Seq<usize>)
    ensures
        shape_product(s) >= 0,
    decreases s.len(),
{
    if s.len() > 0 {
        lemma_product_nonneg(s.drop_last());
        let p = shape_product(s.drop_last());
        let l = s.last() as int;
        assert(p * l >= 0) by (nonlinear_arith)
            requires
                p >= 0,
                l >= 0,
        ;
    }
}

proof fn lemma_product_zero(s: Seq<usize>, i: int)
    requires
        0 <= i < s.len(),
        s[i] == 0,
    ensures
        shape_product(s) == 0,
    decreases s.len(),
{
    if i < s.len() - 1 {
        lemma_product_zero(s.drop_last(), i);
    } else {
        assert(s.last() == 0);
    }
}

proof fn lemma_product_grows(s: Seq<usize>, n: int)
    requires
        0 <= n <= s.len(),
        forall|j: int| 0 <= j < s.len() ==> s[j] >= 1,
    ensures
        1 <= shape_product(s.subrange(0, n)) <= shape_product(s),
    decreases s.len(),
{
    if s.len() > 0 {
        if n == s.len() {
            assert(s.subrange(0, n) =~= s);
            lemma_product_grows(s.drop_last(), n - 1 as int);
            assert(s.drop_last().subrange(0, n - 1) =~= s.drop_last());
        } else {
            lemma_product_grows(s.drop_last(), n);
            assert(s.drop_last().subrange(0, n) =~= s.subrange(0, n));
        }
        let p = shape_product(s.drop_last());
        let l = s.last() as int;
        assert(p <= p * l) by (nonlinear_arith)
            requires
                p >= 1,
                l >= 1,
        ;
    } else {
        assert(s.subrange(0, n) =~= s);
    }
}

/// Counts the elements of `shape`; `None` when that count does not fit in a `usize`.
pub fn element_count(shape: &Vec<usize>) -> (r: Option<usize>)
    ensures
        r.is_some() <==> shape_product(shape@) <= usize::MAX,
        r matches Some(n) ==> n == shape_product(shape@),
{
    let mut i: usize = 0;
    while i < shape.len()
        invariant
            i <= shape.len(),
            forall|j: int| 0 <= j < i ==> shape@[j] >= 1,
        decreases shape.len() - i,
    {
        if shape[i] == 0 {
            proof {
                lemma_product_zero(shape@, i as int);
            }
            return Some(0);
        }
        i = i + 1;
    }
    let mut acc: usize = 1;
    let mut k: usize = 0;
    while k < shape.len()
        invariant
            k <= shape.len(),
            forall|j: int| 0 <= j < shape@.len() ==> shape@[j] >= 1,
            acc == shape_product(shape@.subrange(0, k as int)),
        decreases shape.len() - k,
    {
        proof {
            assert(shape@.subrange(0, k + 1).drop_last() =~= shape@.subrange(0, k as int));
        }
        match acc.checked_mul(shape[k]) {
            Some(p) => {
                acc = p;
            },
            None => {
                proof {
                    lemma_product_grows(shape@, k + 1);
                }
                return None;
            },
        }
        k = k + 1;
    }
    proof {
        assert(shape@.subrange(0, k as int) =~= shape@);
    }
    Some(acc)
}

/// Why a tensor operation was refused.
#[derive(Debug, Clone, Copy, PartialEq, Eq, Structural)]
pub enum TensorError {
    /// The number of elements that a shape describes differs from the data's length.
    SizeMismatch,
    /// A requested span reaches past the end of the data.
    OutOfRange,
    /// The element count of a shape does not fit in a `usize`.
    TooLarge,
}

/// A contiguous row-major buffer with a shape.
pub struct Tensor<T> {
    data: Vec<T>,
    shape: Vec<usize>,
}

impl<T> Tensor<T> {
    pub closed spec fn data_seq(&self) -> Seq<T> {
        self.data@
    }

    pub closed spec fn shape_seq(&self) -> Seq<usize> {
        self.shape@
    }

    /// The data holds exactly as many elements as the shape describes.
    pub open spec fn wf(&self) -> bool {
        self.data_seq().len() == shape_product(self.shape_seq())
    }

    /// Wraps `data` under `shape`, whose element count must equal `data`'s length.
    pub fn new(data: Vec<T>, shape: &Vec<usize>) -> (r: Result<Tensor<T>, TensorError>)
        ensures
            r.is_ok() <==> data@.len() == shape_product(shape@),
            r matches Ok(t) ==> t.wf() && t.data_seq() == data@ && t.shape_seq() == shape@,
            r matches Err(e) ==> e == TensorError::SizeMismatch,
    {
        let len = data.len();
        match element_count(shape) {
            Some(n) => {
                if n == len {
                    Ok(Tensor { data, shape: copy_shape(shape) })
                } else {
                    Err(TensorError::SizeMismatch)
                }
            },
            None => Err(TensorError::SizeMismatch),
        }
    }

    pub fn shape(&self) -> (r: &Vec<usize>)
        ensures
            r@ == self.shape_seq(),
    {
        &self.shape
    }

    pub fn data(&self) -> (r: &Vec<T>)
        ensures
            r@ == self.data_seq(),
    {
        &self.data
    }

    pub fn size(&self) -> (r: usize)
        ensures
            r == self.data_seq().len(),
    {
        self.data.len()
    }

    /// Gives the tensor a new shape with the same element count; refused otherwise.
    pub fn reshape(&mut self, new_shape: &Vec<usize>) -> (r: Result<(), TensorError>)
        ensures
            r.is_ok() <==> shape_product(new_shape@) == old(self).data_seq().len(),
            r.is_ok() ==> final(self).shape_seq() == new_shape@ && final(self).wf(),
            r.is_err() ==> final(self).shape_seq() == old(self).shape_seq(),
            r matches Err(e) ==> e == TensorError::SizeMismatch,
            final(self).data_seq() == old(self).data_seq(),
    {
        let len = self.data.len();
        match element_count(new_shape) {
            Some(n) => {
                if n == self.data.len() {
                    self.shape = copy_shape(new_shape);
                    Ok(())
                } else {
                    Err(TensorError::SizeMismatch)
                }
            },
            None => Err(TensorError::SizeMismatch),
        }
    }

    /// Overwrites one element.
    pub fn set(&mut self, i: usize, value: T)
        requires
            i < old(self).data_seq().len(),
        ensures
            final(self).data_seq() == old(self).data_seq().update(i as int, value),
            final(self).shape_seq() == old(self).shape_seq(),
    {
        self.data.set(i, value);
    }
}

impl<T: Copy> Tensor<T> {
    /// A tensor of the given shape with every element equal to `value`.
    pub fn filled(shape: &Vec<usize>, value: T) -> (r: Result<Tensor<T>, TensorError>)
        ensures
            r.is_ok() <==> shape_product(shape@) <= usize::MAX,
            r matches Ok(t) ==> t.wf() && t.shape_seq() == shape@ && t.data_seq() == Seq::new(
                shape_product(shape@) as nat,
                |_i: int| value,
            ),
            r matches Err(e) ==> e == TensorError::TooLarge,
    {
        match element_count(shape) {
            Some(n) => {
                let mut data: Vec<T> = Vec::with_capacity(n);
                let mut i: usize = 0;
                while i < n
                    invariant
                        i <= n,
                        data@ == Seq::new(i as nat, |_i: int| value),
                    decreases n - i,
                {
                    data.push(value);
                    i = i + 1;
                    proof {
                        assert(data@ =~= Seq::new(i as nat, |_i: int| value));
                    }
                }
                Ok(Tensor { data, shape: copy_shape(shape) })
            },
            None => Err(TensorError::TooLarge),
        }
    }

    /// Reads one element.
    pub fn get(&self, i: usize) -> (r: T)
        requires
            i < self.data_seq().len(),
        ensures
            r == self.data_seq()[i as int],
    {
        self.data[i]
    }

    /// A copy of the elements `[start, start + count(shape))` under `shape`.
    pub fn slice(&self, start: usize, shape: &Vec<usize>) -> (r: Result<Tensor<T>, TensorError>)
        ensures
            r.is_ok() <==> start + shape_product(shape@) <= self.data_seq().len(),
            r matches Ok(t) ==> t.wf() && t.shape_seq() == shape@ && t.data_seq()
                == self.data_seq().subrange(start as int, start + shape_product(shape@)),
            r matches Err(e) ==> e == TensorError::OutOfRange,
    {
        let len = self.data.len();
        let n = match element_count(shape) {
            Some(n) => n,
            None => {
                return Err(TensorError::OutOfRange);
            },
        };
        if n > self.data.len() || start > self.data.len() - n {
            return Err(TensorError::OutOfRange);
        }
        let mut data: Vec<T> = Vec::with_capacity(n);
        let mut i: usize = 0;
        while i < n
            invariant
                i <= n,
                start + n <= self.data.len(),
                data@ == self.data@.subrange(start as int, start + i),
            decreases n - i,
        {
            data.push(self.data[start + i]);
            i = i + 1;
            proof {
                assert(data@ =~= self.data@.subrange(start as int, start + i));
            }
        }
        Ok(Tensor { data, shape: copy_shape(shape) })
    }

    /// Overwrites the elements from `offset` on with `src`.
    pub fn write_at(&mut self, offset: usize, src: &Vec<T>)
        requires
            offset + src@.len() <= old(self).data_seq().len(),
        ensures
            final(self).shape_seq() == old(self).shape_seq(),
            final(self).data_seq() == old(self).data_seq().subrange(0, offset as int) + src@
                + old(self).data_seq().subrange(
                offset + src@.len(),
                old(self).data_seq().len() as int,
            ),
    {
        overwrite(&mut self.data, offset, src);
    }
}

/// Overwrites `dst[offset..offset + src.len()]` with `src`.
pub fn overwrite<T: Copy>(dst: &mut Vec<T>, offset: usize, src: &Vec<T>)
    requires
        offset + src@.len() <= old(dst)@.len(),
    ensures
        final(dst)@ == old(dst)@.subrange(0, offset as int) + src@ + old(dst)@.subrange(
            offset + src@.len(),
            old(dst)@.len() as int,
        ),
{
    let ghost before = dst@;
    let mut i: usize = 0;
    while i < src.len()
        invariant
            i <= src@.len(),
            offset + src@.len() <= before.len(),
            dst@.len() == before.len(),
            before.len() == dst.len(),
            forall|j: int| 0 <= j < offset ==> dst@[j] == before[j],
            forall|j: int| offset <= j < offset + i ==> dst@[j] == src@[j - offset],
            forall|j: int| offset + i <= j < before.len() ==> dst@[j] == before[j],
        decreases src@.len() - i,
    {
        dst.set(offset + i, src[i]);
        i = i + 1;
    }
    assert(dst@ =~= before.subrange(0, offset as int) + src@ + before.subrange(
        offset + src@.len(),
        before.len() as int,
    ));
}

/// The rows `t[id * d .. id * d + d]` for each `id` of `ids`, one after another.
pub open spec fn gathered_rows<T>(ids: Seq<u32>, t: Seq<T>, d: int) -> Seq<T>
    decreases ids.len(),
{
    if ids.len() == 0 {
        Seq::empty()
    } else {
        gathered_rows(ids.drop_last(), t, d) + t.subrange(
            ids.last() * d,
            ids.last() * d + d,
        )
    }
}

/// Embedding lookup: row `i` of `out` becomes row `ids[i]` of the `[vocab, d]` table.
pub fn gather<T: Copy>(out: &mut Tensor<T>, ids: &Tensor<u32>, table: &Tensor<T>)
    requires
        table.wf(),
        table.shape_seq().len() == 2,
        old(out).data_seq().len() == ids.data_seq().len() * table.shape_seq()[1],
        forall|i: int|
            0 <= i < ids.data_seq().len() ==> #[trigger] ids.data_seq()[i]
                < table.shape_seq()[0],
    ensures
        final(out).shape_seq() == old(out).shape_seq(),
        final(out).data_seq() == gathered_rows(
            ids.data_seq(),
            table.data_seq(),
            table.shape_seq()[1] as int,
        ),
{
    let vocab = table.shape[0];
    let d = table.shape[1];
    let n = ids.data.len();
    proof {
        assert(table.shape@.drop_last().drop_last() =~= Seq::<usize>::empty());
        reveal_with_fuel(shape_product, 3);
        assert(shape_product(table.shape@) == vocab * d);
    }
    let ghost before = out.data@;
    let mut i: usize = 0;
    let mut off: usize = 0;
    while i < n
        invariant
            n == ids.data@.len(),
            i <= n,
            off == i * d,
            table.data.len() == vocab * d,
            table.shape@.len() == 2,
            table.shape@[1] == d,
            before.len() == n * d,
            out.data.len() == before.len(),
            out.shape@ == old(out).shape@,
            forall|k: int| 0 <= k < n ==> #[trigger] ids.data@[k] < vocab,
            out.data@ == gathered_rows(ids.data@.subrange(0, i as int), table.data@, d as int)
                + before.subrange(off as int, before.len() as int),
        decreases n - i,
    {
        let id = ids.data[i];
        proof {
            assert(id * d + d <= vocab * d) by (nonlinear_arith)
                requires
                    id < vocab,
            ;
            assert(off + d <= n * d) by (nonlinear_arith)
                requires
                    off == i * d,
                    i < n,
            ;
        }
        let start = id as usize * d;
        let mut row: Vec<T> = Vec::with_capacity(d);
        let mut j: usize = 0;
        while j < d
            invariant
                j <= d,
                start + d <= table.data.len(),
                row@ == table.data@.subrange(start as int, start + j),
            decreases d - j,
        {
            row.push(table.data[start + j]);
            j = j + 1;
            proof {
                assert(row@ =~= table.data@.subrange(start as int, start + j));
            }
        }
        let ghost prev = out.data@;
        overwrite(&mut out.data, off, &row);
        proof {
            let ids_i = ids.data@.subrange(0, i + 1);
            assert(ids_i.drop_last() =~= ids.data@.subrange(0, i as int));
            assert(ids_i.last() == id);
            let g = gathered_rows(ids.data@.subrange(0, i as int), table.data@, d as int);
            assert(prev.subrange(0, off as int) =~= g);
            assert(out.data@ =~= gathered_rows(ids_i, table.data@, d as int) + before.subrange(
                off + d,
                before.len() as int,
            ));
            assert((i + 1) * d == off + d) by (nonlinear_arith)
                requires
                    off == i * d,
            ;
        }
        i = i + 1;
        off = off + d;
    }
    proof {
        assert(ids.data@.subrange(0, n as int) =~= ids.data@);
        assert(out.data@ =~= gathered_rows(ids.data@, table.data@, d as int));
    }
}

fn copy_shape(shape: &Vec<usize>) -> (r: Vec<usize>)
    ensures
        r@ == shape@,
{
    let mut r: Vec<usize> = Vec::with_capacity(shape.len());
    let mut i: usize = 0;
    while i < shape.len()
        invariant
            i <= shape.len(),
            r@ == shape@.subrange(0, i as int),
        decreases shape.len() - i,
    {
        r.push(shape[i]);
        i = i + 1;
        proof {
            assert(r@ =~= shape@.subrange(0, i as int));
        }
    }
    proof {
        assert(r@ =~= shape@);
    }
    r
}

} // verus!
