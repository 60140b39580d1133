use vstd::prelude::*;
use crate::dtype::DataType;
use crate::tensor::{fits, num_elements, start_sum, suffix_prod, SliceDim, Storage, Tensor, tensor};

verus! {

/// Shape of one cache tensor: key/value heads, positions, head width.
pub open spec fn cache_shape(nkvh: usize, max_seq_len: usize, dh: usize) -> Seq<usize> {
    seq![nkvh, max_seq_len, dh]
}

/// The key and value tensors of one layer, each preallocated for the
/// longest sequence the session supports.
#[derive(Debug)]
pub struct LayerCache {
    pub k: Tensor,
    pub v: Tensor,
    pub k_storage: Storage,
    pub v_storage: Storage,
}

pub proof fn lemma_cache_shape(nkvh: usize, max_seq_len: usize, dh: usize)
    ensures
        suffix_prod(cache_shape(nkvh, max_seq_len, dh), 3) == 1,
        suffix_prod(cache_shape(nkvh, max_seq_len, dh), 2) == dh,
        suffix_prod(cache_shape(nkvh, max_seq_len, dh), 1) == max_seq_len * dh,
        suffix_prod(cache_shape(nkvh, max_seq_len, dh), 0) == nkvh * (max_seq_len * dh),
{
    let s = cache_shape(nkvh, max_seq_len, dh);
    assert(suffix_prod(s, 3) == 1);
    assert(suffix_prod(s, 2) == dh * suffix_prod(s, 3));
    assert(suffix_prod(s, 1) == max_seq_len * suffix_prod(s, 2));
    assert(suffix_prod(s, 0) == nkvh * suffix_prod(s, 1));
}

impl LayerCache {
    /// Both tensors have the cache shape, the row-major layout at offset
    /// zero, and a buffer of exactly their size.
    pub open spec fn wf(&self) -> bool {
        &&& self.k.wf()
        &&& self.v.wf()
        &&& self.k.is_contiguous()
        &&& self.v.is_contiguous()
        &&& self.k.shape@.len() == 3
        &&& self.k.shape@[0] > 0
        &&& self.v.shape@ == self.k.shape@
        &&& self.v.dt == self.k.dt
        &&& self.k.offset == 0
        &&& self.v.offset == 0
        &&& self.k.len == num_elements(self.k.shape@) * self.k.dt.size_spec()
        &&& self.v.len == self.k.len
        &&& self.k_storage.bytes@.len() == self.k.len
        &&& self.v_storage.bytes@.len() == self.v.len
    }

    /// Number of positions the cache can hold.
    pub open spec fn capacity(&self) -> nat {
        self.k.shape@[1] as nat
    }

    /// Byte offset of sequence position `t` of head zero.
    pub open spec fn row_offset(&self, t: int) -> int {
        self.k.dt.size_spec() * (t * self.k.shape@[2])
    }

    pub fn new(dt: DataType, nkvh: usize, max_seq_len: usize, dh: usize) -> (r: LayerCache)
        requires
            nkvh > 0,
            fits(cache_shape(nkvh, max_seq_len, dh)),
            num_elements(cache_shape(nkvh, max_seq_len, dh)) * dt.size_spec() <= usize::MAX,
        ensures
            r.wf(),
            r.k.dt == dt,
            r.k.shape@ == cache_shape(nkvh, max_seq_len, dh),
    {
        let (k, k_storage) = tensor(dt, vec![nkvh, max_seq_len, dh]);
        let (v, v_storage) = tensor(dt, vec![nkvh, max_seq_len, dh]);
        assert(k.shape@ =~= cache_shape(nkvh, max_seq_len, dh));
        LayerCache { k, v, k_storage, v_storage }
    }

    /// The full-capacity key and value tensors.
    pub fn get(&self) -> (r: (&Tensor, &Tensor))
        ensures
            *r.0 == self.k,
            *r.1 == self.v,
    {
        (&self.k, &self.v)
    }

    pub fn max_seq_len(&self) -> (r: usize)
        requires
            self.wf(),
        ensures
            r == self.capacity(),
    {
        self.k.shape[1]
    }

    /// Views of key and value restricted to positions `start .. start + len`
    /// of every head.
    pub fn window(&self, start: usize, len: usize) -> (r: (Tensor, Tensor))
        requires
            self.wf(),
            start + len <= self.capacity(),
        ensures
            r.0.wf(),
            r.1.wf(),
            r.0.shape@ == seq![self.k.shape@[0], len, self.k.shape@[2]],
            r.1.shape@ == r.0.shape@,
            r.0.strides@ == self.k.strides@,
            r.1.strides@ == self.v.strides@,
            r.0.offset == self.row_offset(start as int),
            r.1.offset == r.0.offset,
            r.0.dt == self.k.dt,
            r.1.dt == self.k.dt,
            r.0.len == self.k.len,
            r.1.len == self.k.len,
    {
        let ghost s = self.k.shape@;
        proof {
            lemma_cache_shape(s[0], s[1], s[2]);
            assert(s =~= cache_shape(s[0], s[1], s[2]));
        }
        let dims = vec![
            SliceDim { start: 0, step: 1, len: self.k.shape[0] },
            SliceDim { start, step: 1, len },
            SliceDim { start: 0, step: 1, len: self.k.shape[2] },
        ];
        let ghost st = self.k.strides@;
        proof {
            assert(dims@[0].start == 0 && dims@[1].start == start && dims@[2].start == 0);
            assert(start_sum(dims@, st, 0) == 0);
            assert(dims@[0].start * st[0] == 0);
            assert(dims@[2].start * st[2] == 0);
            assert(start_sum(dims@, st, 1) == 0);
            assert(start_sum(dims@, st, 2) == start * st[1]);
            assert(start_sum(dims@, st, 3) == start * st[1]);
            let size = self.k.dt.size_spec();
            assert(size * (start * s[2]) <= size * (s[0] * (s[1] * s[2]))) by (nonlinear_arith)
                requires
                    start <= s[1],
                    s[0] >= 1,
                    size >= 1,
                    s[2] >= 0,
            {
                assert(start * s[2] <= s[1] * s[2]);
                assert(s[1] * s[2] <= s[0] * (s[1] * s[2]));
            }
        }
        proof {
            assert(self.k.strides@[1] == s[2]);
            assert(self.v.strides@ == self.k.strides@);
            assert(self.k.len == s[0] * (s[1] * s[2]) * self.k.dt.size_spec());
            assert(self.k.dt.size_spec() * (s[0] * (s[1] * s[2])) == s[0] * (s[1] * s[2]) * self.k.dt.size_spec()) by (nonlinear_arith);
            assert forall|i: int| 0 <= i < 3 implies #[trigger] dims@[i].within(s[i]) by {
                let d = dims@[i];
                assert(d.step == 1);
                assert((d.len - 1) * d.step == d.len - 1);
                assert(i == 1 ==> d.start == start && d.len == len);
                assert(i != 1 ==> d.start == 0 && d.len == s[i]);
            }
            assert(dims@.len() == 3);
            assert forall|i: int| 0 <= i < 3 implies dims@[i].step * self.k.strides@[i] <= usize::MAX by {
                assert(dims@[i].step == 1);
            }
            assert(self.k.offset + self.k.dt.size_spec() * start_sum(dims@, self.k.strides@, 3) <= self.k.len);
            assert(self.v.offset + self.v.dt.size_spec() * start_sum(dims@, self.v.strides@, 3) <= self.v.len);
        }
        let k = self.k.slice(&dims);
        let v = self.v.slice(&dims);
        match (k, v) {
            (Ok(k), Ok(v)) => {
                assert(k.shape@ =~= seq![self.k.shape@[0], len, self.k.shape@[2]]);
                assert forall|i: int| 0 <= i < 3 implies v.strides@[i] == self.v.strides@[i] by {
                    assert(dims@[i].step == 1);
                }
                assert forall|i: int| 0 <= i < 3 implies k.strides@[i] == self.k.strides@[i] by {
                    assert(dims@[i].step == 1);
                }
                assert(v.strides@ =~= self.v.strides@);
                assert(k.strides@ =~= self.k.strides@);
                (k, v)
            },
            _ => {
                assert(false);
                (Tensor { dt: self.k.dt, shape: Vec::new(), strides: Vec::new(), offset: 0, len: 0 },
                 Tensor { dt: self.k.dt, shape: Vec::new(), strides: Vec::new(), offset: 0, len: 0 })
            },
        }
    }
}

impl LayerCache {
    /// Byte offset of row `j` of the window that starts at position `start`.
    pub open spec fn window_row(&self, start: int, j: int) -> int {
        self.row_offset(start) + self.k.dt.size_spec() * (j * self.k.strides@[1])
    }
}

/// Appending positions `a .. a + n1` and then `a + n1 .. a + n1 + n2`
/// addresses the same cache rows as one append of `a .. a + n1 + n2`: row
/// `j` of the single window is row `j` of the first window when `j < n1`
/// and row `j - n1` of the second otherwise, and every row of a window is
/// the cache row of its absolute position, which attention reads back.
pub proof fn lemma_windows_tile(c: LayerCache, a: int, n1: int, n2: int)
    requires
        c.wf(),
        0 <= a,
        0 <= n1,
        0 <= n2,
        a + n1 + n2 <= c.capacity(),
    ensures
        forall|j: int| 0 <= j < n1 + n2 ==> #[trigger] c.window_row(a, j) == c.row_offset(a + j),
        forall|j: int| n1 <= j < n1 + n2 ==> #[trigger] c.window_row(a, j) == c.window_row(a + n1, j - n1),
{
    let s = c.k.shape@;
    lemma_cache_shape(s[0], s[1], s[2]);
    assert(s =~= cache_shape(s[0], s[1], s[2]));
    assert(c.k.strides@[1] == s[2]);
    let size = c.k.dt.size_spec();
    let w = s[2] as int;
    assert forall|st: int, j: int| #[trigger] c.window_row(st, j) == c.row_offset(st + j) by {
        assert(size * (st * w) + size * (j * w) == size * ((st + j) * w)) by (nonlinear_arith);
    }
    assert forall|j: int| n1 <= j < n1 + n2 implies #[trigger] c.window_row(a, j) == c.window_row(a + n1, j - n1) by {
        assert(c.window_row(a + n1, j - n1) == c.row_offset(a + n1 + (j - n1)));
    }
}

} // verus!
