use vstd::prelude::*;
use vstd::set_lib::{lemma_int_range, lemma_subset_equality, set_int_range};
use crate::dtype::DataType;

verus! {

/// Product of the dimension sizes from index `i` to the end.
pub open spec fn suffix_prod(s: Seq<usize>, i: int) -> int
    decreases s.len() - i,
{
    if i < 0 || i >= s.len() {
        1
    } else {
        s[i] as int * suffix_prod(s, i + 1)
    }
}

/// Number of elements described by a shape.
pub open spec fn num_elements(s: Seq<usize>) -> int {
    suffix_prod(s, 0)
}

/// Every suffix product of the shape (the row-major strides and the
/// element count) fits in a machine word.
pub open spec fn fits(s: Seq<usize>) -> bool {
    forall|i: int| 0 <= i <= s.len() ==> suffix_prod(s, i) <= usize::MAX
}

/// Strides `st` are the row-major strides of shape `s`.
pub open spec fn is_row_major(s: Seq<usize>, st: Seq<usize>) -> bool {
    &&& st.len() == s.len()
    &&& forall|i: int| 0 <= i < s.len() ==> st[i] as int == suffix_prod(s, i + 1)
}

/// Row-major strides of `shape` and its element count, or `None` where they
/// do not fit in a machine word.
pub fn row_major_strides(shape: &Vec<usize>) -> (r: Option<(Vec<usize>, usize)>)
    ensures
        r is Some <==> fits(shape@),
        r matches Some((st, total)) ==> is_row_major(shape@, st@) && total as int == num_elements(
            shape@,
        ),
{
    let n = shape.len();
    let mut st: Vec<usize> = Vec::new();
    let mut k: usize = 0;
    while k < n
        invariant
            k <= n,
            n == shape@.len(),
            st@.len() == k,
        decreases n - k,
    {
        st.push(0);
        k = k + 1;
    }
    let mut acc: usize = 1;
    let mut i: usize = n;
    while i > 0
        invariant
            i <= n,
            n == shape@.len(),
            st@.len() == n,
            acc as int == suffix_prod(shape@, i as int),
            forall|j: int| i <= j <= n ==> suffix_prod(shape@, j) <= usize::MAX,
            forall|j: int| i <= j < n ==> st@[j] as int == suffix_prod(shape@, j + 1),
        decreases i,
    {
        st.set(i - 1, acc);
        match shape[i - 1].checked_mul(acc) {
            Some(p) => {
                acc = p;
                i = i - 1;
            },
            None => {
                assert(suffix_prod(shape@, i - 1) > usize::MAX);
                return None;
            },
        }
    }
    Some((st, acc))
}


/// Ways in which a tensor operation can be refused.
#[derive(Clone, Copy, Debug, PartialEq, Eq, Structural)]
pub enum TensorError {
    ShapeMismatch,
    OutOfBounds,
    NotContiguous,
    SizeMismatch,
    InvalidPermutation,
}

/// An owned, fixed-size byte buffer.
#[derive(Debug)]
pub struct Storage {
    pub bytes: Vec<u8>,
}

impl Storage {
    /// A zero-filled buffer of `len` bytes.
    pub fn new(len: usize) -> (r: Storage)
        ensures
            r.bytes@.len() == len,
            forall|i: int| 0 <= i < len ==> r.bytes@[i] == 0u8,
    {
        let mut bytes: Vec<u8> = Vec::new();
        while bytes.len() < len
            invariant
                bytes@.len() <= len,
                forall|i: int| 0 <= i < bytes@.len() ==> bytes@[i] == 0u8,
            decreases len - bytes@.len(),
        {
            bytes.push(0);
        }
        Storage { bytes }
    }

    pub fn len(&self) -> (r: usize)
        ensures
            r == self.bytes@.len(),
    {
        self.bytes.len()
    }
}

/// A strided view into a buffer of `len` bytes: element type, dimension
/// sizes, strides in elements and a byte offset.
#[derive(Clone, Debug)]
pub struct Tensor {
    pub dt: DataType,
    pub shape: Vec<usize>,
    pub strides: Vec<usize>,
    pub offset: usize,
    pub len: usize,
}

impl Tensor {
    /// One stride per dimension, and the offset lies within the buffer.
    pub open spec fn wf(&self) -> bool {
        &&& self.shape@.len() == self.strides@.len()
        &&& self.offset <= self.len
    }

    /// The strides are those of the row-major layout of the shape.
    pub open spec fn is_contiguous(&self) -> bool {
        is_row_major(self.shape@, self.strides@)
    }

    /// A row-major view at offset zero over a buffer of `buffer_len` bytes;
    /// refused where the buffer is too small for the shape.
    pub fn new(dt: DataType, shape: Vec<usize>, buffer_len: usize) -> (r: Result<Tensor, TensorError>)
        ensures
            r is Ok <==> fits(shape@) && num_elements(shape@) * dt.size_spec() <= buffer_len,
            r is Err ==> r == Err::<Tensor, TensorError>(TensorError::ShapeMismatch),
            r matches Ok(t) ==> {
                &&& t.wf()
                &&& t.is_contiguous()
                &&& t.dt == dt
                &&& t.shape@ == shape@
                &&& t.offset == 0
                &&& t.len == buffer_len
            },
    {
        match row_major_strides(&shape) {
            None => Err(TensorError::ShapeMismatch),
            Some((strides, total)) => match total.checked_mul(dt.size()) {
                Some(bytes) if bytes <= buffer_len => Ok(Tensor { dt, shape, strides, offset: 0, len: buffer_len }),
                _ => Err(TensorError::ShapeMismatch),
            },
        }
    }

    pub fn ndim(&self) -> (r: usize)
        ensures
            r == self.shape@.len(),
    {
        self.shape.len()
    }

    /// Whether the strides are those of the row-major layout.
    pub fn contiguous(&self) -> (r: bool)
        ensures
            r == self.is_contiguous(),
    {
        if self.shape.len() != self.strides.len() {
            return false;
        }
        let n = self.shape.len();
        let mut i: usize = n;
        let mut expected: usize = 1;
        while i > 0
            invariant
                i <= n,
                n == self.shape@.len(),
                n == self.strides@.len(),
                i > 0 ==> expected as int == suffix_prod(self.shape@, i as int),
                forall|j: int| i <= j < n ==> self.strides@[j] as int == suffix_prod(self.shape@, j + 1),
            decreases i,
        {
            if self.strides[i - 1] != expected {
                return false;
            }
            i = i - 1;
            if i > 0 {
                match self.shape[i].checked_mul(expected) {
                    Some(p) => {
                        expected = p;
                    },
                    None => {
                        assert(suffix_prod(self.shape@, i as int) > usize::MAX);
                        assert(self.strides@[i - 1] as int != suffix_prod(self.shape@, i as int));
                        return false;
                    },
                }
            }
        }
        true
    }
}

/// `p` lists each of `0 .. n` exactly once.
pub open spec fn is_perm(p: Seq<usize>, n: int) -> bool {
    &&& p.len() == n
    &&& n <= usize::MAX
    &&& forall|i: int| 0 <= i < n ==> p[i] < n
    &&& forall|i: int, j: int| 0 <= i < n && 0 <= j < n && i != j ==> p[i] != p[j]
}

/// The sequence whose `i`-th entry is `s[p[i]]`.
pub open spec fn permute(s: Seq<usize>, p: Seq<usize>) -> Seq<usize> {
    Seq::new(p.len(), |i: int| s[p[i] as int])
}

/// The permutation that undoes `p`.
pub open spec fn inverse_perm(p: Seq<usize>) -> Seq<usize> {
    Seq::new(p.len(), |j: int| (choose|i: int| 0 <= i < p.len() && p[i] == j) as usize)
}

/// Some entry of `p` is `j`.
pub open spec fn hits(p: Seq<usize>, j: int) -> bool {
    exists|i: int| 0 <= i < p.len() && p[i] == j
}

/// A permutation of `0 .. n` reaches every index.
pub proof fn lemma_perm_onto(p: Seq<usize>, n: int)
    requires
        is_perm(p, n),
    ensures
        forall|j: int| 0 <= j < n ==> #[trigger] hits(p, j),
{
    let ps = p.map_values(|x: usize| x as int);
    assert(ps.no_duplicates()) by {
        assert forall|i: int, j: int| 0 <= i < ps.len() && 0 <= j < ps.len() && i != j implies ps[i] != ps[j] by {
            assert(p[i] != p[j]);
        }
    }
    ps.unique_seq_to_set();
    lemma_int_range(0, n);
    assert(ps.to_set().subset_of(set_int_range(0, n))) by {
        assert forall|x: int| ps.to_set().contains(x) implies set_int_range(0, n).contains(x) by {
            let i = choose|i: int| 0 <= i < ps.len() && ps[i] == x;
            assert(p[i] < n);
        }
    }
    lemma_subset_equality(ps.to_set(), set_int_range(0, n));
    assert forall|j: int| 0 <= j < n implies #[trigger] hits(p, j) by {
        assert(set_int_range(0, n).contains(j));
        assert(ps.to_set().contains(j));
        let i = choose|i: int| 0 <= i < ps.len() && ps[i] == j;
        assert(p[i] == j);
    }
}

/// The inverse of a permutation is a permutation, and each undoes the other.
pub proof fn lemma_inverse_perm(p: Seq<usize>, n: int)
    requires
        is_perm(p, n),
    ensures
        is_perm(inverse_perm(p), n),
        forall|i: int| 0 <= i < n ==> inverse_perm(p)[p[i] as int] == i,
        forall|j: int| 0 <= j < n ==> p[inverse_perm(p)[j] as int] == j,
{
    lemma_perm_onto(p, n);
    let q = inverse_perm(p);
    assert forall|j: int| 0 <= j < n implies q[j] < n && p[q[j] as int] == j by {
        assert(hits(p, j));
        let i = choose|i: int| 0 <= i < p.len() && p[i] == j;
        assert(q[j] as int == i);
    }
    assert forall|i: int| 0 <= i < n implies q[p[i] as int] == i by {
        let j = p[i] as int;
        let k = q[j] as int;
        assert(p[k] == j);
    }
    assert forall|a: int, b: int| 0 <= a < n && 0 <= b < n && a != b implies q[a] != q[b] by {
        assert(p[q[a] as int] == a);
        assert(p[q[b] as int] == b);
    }
}

/// Transposing by a permutation and then by its inverse restores the
/// original dimension order: shape, strides and offset of the tensor come
/// back unchanged.
pub proof fn lemma_transpose_round_trip(t: Tensor, p: Seq<usize>)
    requires
        t.wf(),
        is_perm(p, t.shape@.len() as int),
    ensures
        is_perm(inverse_perm(p), t.shape@.len() as int),
        permute(permute(t.shape@, p), inverse_perm(p)) == t.shape@,
        permute(permute(t.strides@, p), inverse_perm(p)) == t.strides@,
{
    let n = t.shape@.len() as int;
    lemma_inverse_perm(p, n);
    assert(permute(permute(t.shape@, p), inverse_perm(p)) =~= t.shape@);
    assert(permute(permute(t.strides@, p), inverse_perm(p)) =~= t.strides@);
}

/// Whether `perm` lists each of `0 .. n` exactly once.
pub fn check_perm(perm: &Vec<usize>, n: usize) -> (r: bool)
    ensures
        r == is_perm(perm@, n as int),
{
    if perm.len() != n {
        return false;
    }
    let mut seen: Vec<bool> = Vec::new();
    while seen.len() < n
        invariant
            seen@.len() <= n,
            forall|k: int| 0 <= k < seen@.len() ==> !seen@[k],
        decreases n - seen@.len(),
    {
        seen.push(false);
    }
    let mut i: usize = 0;
    while i < n
        invariant
            i <= n,
            perm@.len() == n,
            seen@.len() == n,
            forall|a: int| 0 <= a < i ==> perm@[a] < n,
            forall|a: int, b: int| 0 <= a < i && 0 <= b < i && a != b ==> perm@[a] != perm@[b],
            forall|k: int| 0 <= k < n ==> (seen@[k] <==> exists|a: int| 0 <= a < i && perm@[a] == k),
        decreases n - i,
    {
        let x = perm[i];
        if x >= n {
            return false;
        }
        if seen[x] {
            return false;
        }
        seen.set(x, true);
        i = i + 1;
        assert forall|k: int| 0 <= k < n implies (seen@[k] <==> exists|a: int| 0 <= a < i && perm@[a] == k) by {
            if k == x as int {
                assert(perm@[i - 1] == k);
            } else if seen@[k] {
                let a = choose|a: int| 0 <= a < i - 1 && perm@[a] == k;
                assert(0 <= a < i && perm@[a] == k);
            }
        }
    }
    true
}

/// The permutation that undoes `perm`.
pub fn inverse(perm: &Vec<usize>) -> (r: Vec<usize>)
    requires
        is_perm(perm@, perm@.len() as int),
    ensures
        r@ == inverse_perm(perm@),
{
    let n = perm.len();
    let mut q: Vec<usize> = Vec::new();
    while q.len() < n
        invariant
            q@.len() <= n,
        decreases n - q@.len(),
    {
        q.push(0);
    }
    let mut i: usize = 0;
    while i < n
        invariant
            i <= n,
            n == perm@.len(),
            q@.len() == n,
            is_perm(perm@, n as int),
            forall|a: int| 0 <= a < i ==> q@[perm@[a] as int] == a,
        decreases n - i,
    {
        q.set(perm[i], i);
        i = i + 1;
    }
    proof {
        lemma_perm_onto(perm@, n as int);
        assert forall|j: int| 0 <= j < n implies q@[j] == inverse_perm(perm@)[j] by {
            assert(hits(perm@, j));
            let a = choose|a: int| 0 <= a < n && perm@[a] == j;
            assert(q@[j] == a);
        }
    }
    assert(q@ =~= inverse_perm(perm@));
    q
}

/// Lays fresh storage out for a tensor of the given type and shape; the
/// buffer holds exactly the bytes the shape needs.
pub fn tensor(dt: DataType, shape: Vec<usize>) -> (r: (Tensor, Storage))
    requires
        fits(shape@),
        num_elements(shape@) * dt.size_spec() <= usize::MAX,
    ensures
        r.0.wf(),
        r.0.is_contiguous(),
        r.0.dt == dt,
        r.0.shape@ == shape@,
        r.0.offset == 0,
        r.0.len == num_elements(shape@) * dt.size_spec(),
        r.1.bytes@.len() == r.0.len,
{
    match row_major_strides(&shape) {
        Some((strides, total)) => {
            let len = total * dt.size();
            let storage = Storage::new(len);
            (Tensor { dt, shape, strides, offset: 0, len }, storage)
        },
        None => {
            assert(false);
            let storage = Storage::new(0);
            (Tensor { dt, shape, strides: Vec::new(), offset: 0, len: 0 }, storage)
        },
    }
}

/// One dimension of a slice: `len` indices from `start`, `step` apart.
#[derive(Clone, Copy, Debug, PartialEq, Eq, Structural)]
pub struct SliceDim {
    pub start: usize,
    pub step: usize,
    pub len: usize,
}

impl SliceDim {
    /// Every index of the slice lies below `dim`.
    pub open spec fn within(self, dim: usize) -> bool {
        if self.len == 0 {
            self.start <= dim
        } else {
            self.start + (self.len - 1) * self.step < dim
        }
    }
}

/// Sum over the first `k` dimensions of the element distance to each start index.
pub open spec fn start_sum(d: Seq<SliceDim>, st: Seq<usize>, k: int) -> int
    decreases k,
{
    if k <= 0 {
        0
    } else {
        start_sum(d, st, k - 1) + d[k - 1].start * st[k - 1]
    }
}

pub proof fn lemma_start_sum_mono(d: Seq<SliceDim>, st: Seq<usize>, k: int, m: int)
    requires
        0 <= k <= m,
    ensures
        start_sum(d, st, k) <= start_sum(d, st, m),
    decreases m - k,
{
    if k < m {
        lemma_start_sum_mono(d, st, k, m - 1);
        assert(d[m - 1].start * st[m - 1] >= 0) by (nonlinear_arith);
    }
}

/// Shape of a slice.
pub open spec fn sliced_shape(d: Seq<SliceDim>) -> Seq<usize> {
    Seq::new(d.len(), |i: int| d[i].len)
}

impl Tensor {
    /// Reorders the dimensions: dimension `i` of the result is dimension
    /// `perm[i]` of `self`; shape and strides move together, nothing is copied.
    pub fn transpose(&self, perm: &Vec<usize>) -> (r: Result<Tensor, TensorError>)
        requires
            self.wf(),
        ensures
            r is Ok <==> is_perm(perm@, self.shape@.len() as int),
            r is Err ==> r == Err::<Tensor, TensorError>(TensorError::InvalidPermutation),
            r matches Ok(t) ==> {
                &&& t.wf()
                &&& t.dt == self.dt
                &&& t.shape@ == permute(self.shape@, perm@)
                &&& t.strides@ == permute(self.strides@, perm@)
                &&& t.offset == self.offset
                &&& t.len == self.len
            },
    {
        let n = self.shape.len();
        if !check_perm(perm, n) {
            return Err(TensorError::InvalidPermutation);
        }
        let mut shape: Vec<usize> = Vec::new();
        let mut strides: Vec<usize> = Vec::new();
        let mut i: usize = 0;
        while i < n
            invariant
                i <= n,
                self.wf(),
                n == self.shape@.len(),
                is_perm(perm@, n as int),
                shape@ == permute(self.shape@, perm@).subrange(0, i as int),
                strides@ == permute(self.strides@, perm@).subrange(0, i as int),
            decreases n - i,
        {
            shape.push(self.shape[perm[i]]);
            strides.push(self.strides[perm[i]]);
            i = i + 1;
            assert(shape@ =~= permute(self.shape@, perm@).subrange(0, i as int));
            assert(strides@ =~= permute(self.strides@, perm@).subrange(0, i as int));
        }
        assert(shape@ =~= permute(self.shape@, perm@));
        assert(strides@ =~= permute(self.strides@, perm@));
        Ok(Tensor { dt: self.dt, shape, strides, offset: self.offset, len: self.len })
    }

    /// Gives a contiguous tensor a new shape with the same number of
    /// elements; the data are not moved.
    pub fn reshape(&self, new_shape: Vec<usize>) -> (r: Result<Tensor, TensorError>)
        requires
            self.wf(),
        ensures
            !self.is_contiguous() ==> r == Err::<Tensor, TensorError>(TensorError::NotContiguous),
            self.is_contiguous() ==> (r is Ok <==> fits(new_shape@) && num_elements(new_shape@)
                == num_elements(self.shape@)),
            self.is_contiguous() && r is Err ==> r == Err::<Tensor, TensorError>(
                TensorError::SizeMismatch,
            ),
            r matches Ok(t) ==> {
                &&& t.wf()
                &&& t.is_contiguous()
                &&& t.dt == self.dt
                &&& t.shape@ == new_shape@
                &&& t.offset == self.offset
                &&& t.len == self.len
            },
    {
        if !self.contiguous() {
            return Err(TensorError::NotContiguous);
        }
        match row_major_strides(&new_shape) {
            None => Err(TensorError::SizeMismatch),
            Some((strides, total)) => match row_major_strides(&self.shape) {
                None => {
                    proof {
                        lemma_contiguous_total(self);
                    }
                    Err(TensorError::SizeMismatch)
                },
                Some((_, old_total)) => {
                    if total != old_total {
                        Err(TensorError::SizeMismatch)
                    } else {
                        Ok(Tensor { dt: self.dt, shape: new_shape, strides, offset: self.offset, len: self.len })
                    }
                },
            },
        }
    }

    /// Narrows every dimension to the indices of its `SliceDim`; refused
    /// where a range leaves its dimension or the new offset leaves the buffer.
    pub fn slice(&self, dims: &Vec<SliceDim>) -> (r: Result<Tensor, TensorError>)
        requires
            self.wf(),
        ensures
            r is Ok <==> {
                &&& dims@.len() == self.shape@.len()
                &&& forall|i: int| 0 <= i < dims@.len() ==> #[trigger] dims@[i].within(self.shape@[i])
                &&& forall|i: int| 0 <= i < dims@.len() ==> dims@[i].step * self.strides@[i] <= usize::MAX
                &&& self.offset + self.dt.size_spec() * start_sum(dims@, self.strides@, dims@.len() as int) <= self.len
            },
            r is Err ==> r == Err::<Tensor, TensorError>(TensorError::OutOfBounds),
            r matches Ok(t) ==> {
                &&& t.wf()
                &&& t.dt == self.dt
                &&& t.shape@ == sliced_shape(dims@)
                &&& t.strides@.len() == dims@.len()
                &&& forall|i: int| 0 <= i < dims@.len() ==> t.strides@[i] as int == dims@[i].step * self.strides@[i]
                &&& t.offset == self.offset + self.dt.size_spec() * start_sum(dims@, self.strides@, dims@.len() as int)
                &&& t.len == self.len
            },
    {
        let n = self.shape.len();
        if dims.len() != n {
            return Err(TensorError::OutOfBounds);
        }
        let size = self.dt.size();
        let mut shape: Vec<usize> = Vec::new();
        let mut strides: Vec<usize> = Vec::new();
        let mut acc: usize = 0;
        let mut i: usize = 0;
        while i < n
            invariant
                i <= n,
                self.wf(),
                n == self.shape@.len(),
                n == dims@.len(),
                size == self.dt.size_spec(),
                forall|j: int| 0 <= j < i ==> #[trigger] dims@[j].within(self.shape@[j]),
                forall|j: int| 0 <= j < i ==> dims@[j].step * self.strides@[j] <= usize::MAX,
                acc as int == start_sum(dims@, self.strides@, i as int),
                self.offset + size * acc <= self.len,
                shape@ == sliced_shape(dims@).subrange(0, i as int),
                strides@.len() == i,
                forall|j: int| 0 <= j < i ==> strides@[j] as int == dims@[j].step * self.strides@[j],
            decreases n - i,
        {
            let d = dims[i];
            let dim = self.shape[i];
            let ok = if d.len == 0 {
                d.start <= dim
            } else {
                match (d.len - 1).checked_mul(d.step) {
                    Some(span) => match d.start.checked_add(span) {
                        Some(last) => last < dim,
                        None => false,
                    },
                    None => {
                        assert((d.len - 1) * d.step > usize::MAX);
                        false
                    },
                }
            };
            if !ok {
                assert(!dims@[i as int].within(self.shape@[i as int]));
                return Err(TensorError::OutOfBounds);
            }
            let stride = match d.step.checked_mul(self.strides[i]) {
                Some(x) => x,
                None => {
                    return Err(TensorError::OutOfBounds);
                },
            };
            proof {
                lemma_start_sum_mono(dims@, self.strides@, i as int + 1, n as int);
                assert(size * start_sum(dims@, self.strides@, i as int + 1) <= size * start_sum(dims@, self.strides@, n as int)) by (nonlinear_arith)
                    requires
                        start_sum(dims@, self.strides@, i as int + 1) <= start_sum(dims@, self.strides@, n as int),
                        size >= 0,
                ;
            }
            let next = match d.start.checked_mul(self.strides[i]) {
                Some(x) => match acc.checked_add(x) {
                    Some(y) => y,
                    None => {
                        return Err(TensorError::OutOfBounds);
                    },
                },
                None => {
                    assert(d.start * self.strides@[i as int] >= 0) by (nonlinear_arith);
                    return Err(TensorError::OutOfBounds);
                },
            };
            let bytes = match next.checked_mul(size) {
                Some(b) => b,
                None => {
                    return Err(TensorError::OutOfBounds);
                },
            };
            if bytes > self.len - self.offset {
                return Err(TensorError::OutOfBounds);
            }
            acc = next;
            shape.push(d.len);
            strides.push(stride);
            i = i + 1;
            assert(shape@ =~= sliced_shape(dims@).subrange(0, i as int));
        }
        assert(shape@ =~= sliced_shape(dims@));
        Ok(Tensor { dt: self.dt, shape, strides, offset: self.offset + size * acc, len: self.len })
    }
}

/// A contiguous shape whose element count does not fit has no row-major
/// layout that fits either, except at its first dimension.
proof fn lemma_contiguous_total(t: &Tensor)
    requires
        t.is_contiguous(),
        !fits(t.shape@),
    ensures
        num_elements(t.shape@) > usize::MAX,
{
    let n = t.shape@.len() as int;
    assert forall|j: int| 1 <= j <= n implies suffix_prod(t.shape@, j) <= usize::MAX by {
        if j < n {
            assert(t.strides@[j - 1] as int == suffix_prod(t.shape@, j));
        }
    }
}

/// Reshaping a contiguous tensor to `s1` and back to its own shape is
/// always accepted and restores the strides: the second reshape yields the
/// original tensor.
pub proof fn lemma_reshape_round_trip(t: Tensor, s1: Seq<usize>)
    requires
        t.wf(),
        t.is_contiguous(),
        fits(s1),
        num_elements(s1) == num_elements(t.shape@),
    ensures
        fits(t.shape@),
        forall|st: Seq<usize>| is_row_major(t.shape@, st) ==> st == t.strides@,
{
    let n = t.shape@.len() as int;
    assert forall|j: int| 0 <= j <= n implies suffix_prod(t.shape@, j) <= usize::MAX by {
        if 1 <= j < n {
            assert(t.strides@[j - 1] as int == suffix_prod(t.shape@, j));
        } else if j == 0 {
            assert(suffix_prod(s1, 0) <= usize::MAX);
        }
    }
    assert forall|st: Seq<usize>| is_row_major(t.shape@, st) implies st == t.strides@ by {
        assert(st =~= t.strides@);
    }
}

/// Sum of the first `k` entries.
pub open spec fn prefix_sum(s: Seq<usize>, k: int) -> int
    decreases k,
{
    if k <= 0 {
        0
    } else {
        prefix_sum(s, k - 1) + s[k - 1]
    }
}

pub proof fn lemma_prefix_sum_mono(s: Seq<usize>, k: int, m: int)
    requires
        0 <= k <= m,
    ensures
        prefix_sum(s, k) <= prefix_sum(s, m),
    decreases m - k,
{
    if k < m {
        lemma_prefix_sum_mono(s, k, m - 1);
    }
}

impl Tensor {
    /// Byte offset of part `k` when dimension `axis` is split into `sizes`.
    pub open spec fn part_offset(&self, axis: int, sizes: Seq<usize>, k: int) -> int {
        self.offset + self.dt.size_spec() * (prefix_sum(sizes, k) * self.strides@[axis])
    }

    /// Cuts dimension `axis` into adjacent parts of the given sizes, each a
    /// view of the same buffer.
    pub fn split(&self, axis: usize, sizes: &Vec<usize>) -> (r: Result<Vec<Tensor>, TensorError>)
        requires
            self.wf(),
        ensures
            axis >= self.shape@.len() ==> r == Err::<Vec<Tensor>, TensorError>(TensorError::OutOfBounds),
            axis < self.shape@.len() && prefix_sum(sizes@, sizes@.len() as int) != self.shape@[axis as int]
                ==> r == Err::<Vec<Tensor>, TensorError>(TensorError::SizeMismatch),
            axis < self.shape@.len() && prefix_sum(sizes@, sizes@.len() as int) == self.shape@[axis as int]
                ==> {
                &&& r is Ok <==> forall|k: int| 0 <= k < sizes@.len() ==> #[trigger] self.part_offset(axis as int, sizes@, k) <= self.len
                &&& r is Err ==> r == Err::<Vec<Tensor>, TensorError>(TensorError::OutOfBounds)
            },
            r matches Ok(parts) ==> {
                &&& parts@.len() == sizes@.len()
                &&& forall|k: int| 0 <= k < parts@.len() ==> {
                    &&& (#[trigger] parts@[k]).wf()
                    &&& parts@[k].dt == self.dt
                    &&& parts@[k].shape@ == self.shape@.update(axis as int, sizes@[k])
                    &&& parts@[k].strides@ == self.strides@
                    &&& parts@[k].offset == self.part_offset(axis as int, sizes@, k)
                    &&& parts@[k].len == self.len
                }
            },
    {
        let n = self.shape.len();
        if axis >= n {
            return Err(TensorError::OutOfBounds);
        }
        let m = sizes.len();
        let mut total: usize = 0;
        let mut k: usize = 0;
        while k < m
            invariant
                k <= m,
                m == sizes@.len(),
                axis < self.shape@.len(),
                total as int == prefix_sum(sizes@, k as int),
            decreases m - k,
        {
            match total.checked_add(sizes[k]) {
                Some(t) => {
                    total = t;
                },
                None => {
                    proof {
                        assert(prefix_sum(sizes@, k as int + 1) > usize::MAX);
                        lemma_prefix_sum_mono(sizes@, k as int + 1, m as int);
                        assert(prefix_sum(sizes@, m as int) != self.shape@[axis as int]);
                    }
                    return Err(TensorError::SizeMismatch);
                },
            }
            k = k + 1;
        }
        if total != self.shape[axis] {
            return Err(TensorError::SizeMismatch);
        }
        let size = self.dt.size();
        let stride = self.strides[axis];
        let mut parts: Vec<Tensor> = Vec::new();
        let mut before: usize = 0;
        k = 0;
        while k < m
            invariant
                k <= m,
                m == sizes@.len(),
                n == self.shape@.len(),
                axis < n,
                self.wf(),
                size == self.dt.size_spec(),
                stride == self.strides@[axis as int],
                prefix_sum(sizes@, m as int) == self.shape@[axis as int],
                before as int == prefix_sum(sizes@, k as int),
                parts@.len() == k,
                forall|j: int| 0 <= j < k ==> #[trigger] self.part_offset(axis as int, sizes@, j) <= self.len,
                forall|j: int| 0 <= j < k ==> {
                    &&& (#[trigger] parts@[j]).wf()
                    &&& parts@[j].dt == self.dt
                    &&& parts@[j].shape@ == self.shape@.update(axis as int, sizes@[j])
                    &&& parts@[j].strides@ == self.strides@
                    &&& parts@[j].offset == self.part_offset(axis as int, sizes@, j)
                    &&& parts@[j].len == self.len
                },
            decreases m - k,
        {
            let ghost off = self.part_offset(axis as int, sizes@, k as int);
            let bytes = match before.checked_mul(stride) {
                Some(e) => match e.checked_mul(size) {
                    Some(b) => b,
                    None => {
                        assert(off > usize::MAX) by (nonlinear_arith)
                            requires
                                off == self.offset + size * (before * stride),
                                size * (before * stride) > usize::MAX,
                                self.offset >= 0,
                        ;
                        return Err(TensorError::OutOfBounds);
                    },
                },
                None => {
                    assert(off > usize::MAX) by (nonlinear_arith)
                        requires
                            off == self.offset + size * (before * stride),
                            before * stride > usize::MAX,
                            size >= 1,
                            self.offset >= 0,
                    ;
                    return Err(TensorError::OutOfBounds);
                },
            };
            assert(off == self.offset + bytes) by (nonlinear_arith)
                requires
                    off == self.offset + size * (before * stride),
                    bytes == (before * stride) * size,
            ;
            if bytes > self.len - self.offset {
                return Err(TensorError::OutOfBounds);
            }
            let mut shape = self.shape.clone();
            shape.set(axis, sizes[k]);
            let strides = self.strides.clone();
            parts.push(Tensor { dt: self.dt, shape, strides, offset: self.offset + bytes, len: self.len });
            proof {
                lemma_prefix_sum_mono(sizes@, k as int + 1, m as int);
            }
            before = before + sizes[k];
            k = k + 1;
        }
        Ok(parts)
    }
}

} // verus!
