//! Built-in functions over matrices, looked up by name.
use vstd::prelude::*;
use crate::tokenizer::chars_of;

verus! {

/// A dense matrix stored row by row.
pub struct Matrix {
    pub rows: usize,
    pub cols: usize,
    pub data: Vec<i64>,
}

impl Matrix {
    pub open spec fn wf(&self) -> bool {
        self.data@.len() == self.rows * self.cols
    }

    /// The entry at row `i`, column `j`.
    pub open spec fn at(&self, i: int, j: int) -> i64 {
        self.data@[i * self.cols + j]
    }

    pub fn new(rows: usize, cols: usize, data: Vec<i64>) -> (r: Matrix)
        requires
            data@.len() == rows * cols,
        ensures
            r.wf(),
            r.rows == rows,
            r.cols == cols,
            r.data@ == data@,
    {
        Matrix { rows, cols, data }
    }

    pub fn rows(&self) -> (r: usize)
        ensures
            r == self.rows,
    {
        self.rows
    }

    pub fn cols(&self) -> (r: usize)
        ensures
            r == self.cols,
    {
        self.cols
    }

    /// The entry at row `i`, column `j`.
    pub fn get(&self, i: usize, j: usize) -> (r: i64)
        requires
            self.wf(),
            i < self.rows,
            j < self.cols,
        ensures
            r == self.at(i as int, j as int),
    {
        let _ = self.data.len();
        proof {
            lemma_index_in_range(i as int, j as int, self.rows as int, self.cols as int);
        }
        self.data[i * self.cols + j]
    }
}

proof fn lemma_index_in_range(i: int, j: int, rows: int, cols: int)
    requires
        0 <= i < rows,
        0 <= j < cols,
    ensures
        0 <= i * cols + j < rows * cols,
{
    assert(i * cols + j < rows * cols) by (nonlinear_arith)
        requires
            0 <= i < rows,
            0 <= j < cols,
    ;
    assert(0 <= i * cols) by (nonlinear_arith)
        requires
            0 <= i,
            0 <= j < cols,
    ;
}

/// The size of the identity matrix that a 1x1 matrix asks for: its entry,
/// or 0 where the entry is negative.
pub open spec fn requested_dim(m: Matrix) -> int {
    if m.data@[0] < 0 {
        0
    } else {
        m.data@[0] as int
    }
}

/// `r` is the `n` by `n` identity matrix.
pub open spec fn is_identity(r: Matrix, n: int) -> bool {
    &&& r.wf()
    &&& r.rows == n
    &&& r.cols == n
    &&& forall|i: int, j: int|
        0 <= i < n && 0 <= j < n ==> #[trigger] r.at(i, j) == if i == j {
            1i64
        } else {
            0i64
        }
}

/// A built-in function: the arguments it takes and what it gives for them.
pub trait StdFunc {
    spec fn accepts(&self, args: Seq<Matrix>) -> bool;

    spec fn gives(&self, args: Seq<Matrix>, r: Matrix) -> bool;

    fn eval(&self, args: Vec<Matrix>) -> (r: Matrix)
        requires
            self.accepts(args@),
        ensures
            self.gives(args@, r),
    ;
}

/// Builds identity matrices.
#[derive(Clone, Copy, Debug)]
pub struct Identity;

impl Identity {
    /// The identity matrix whose size is the entry of the 1x1 `matrix`.
    pub fn evalpure(matrix: &Matrix) -> (r: Matrix)
        requires
            matrix.wf(),
            matrix.rows == 1,
            matrix.cols == 1,
            requested_dim(*matrix) * requested_dim(*matrix) <= usize::MAX,
        ensures
            is_identity(r, requested_dim(*matrix)),
    {
        let v = matrix.data[0];
        let dim: usize = if v < 0 {
            0
        } else {
            assert(v as int <= usize::MAX) by (nonlinear_arith)
                requires
                    v >= 0,
                    v as int * v as int <= usize::MAX,
            ;
            v as usize
        };
        assert(dim as int == requested_dim(*matrix));
        let total = dim * dim;
        let mut data: Vec<i64> = Vec::new();
        let mut k: usize = 0;
        while k < total
            invariant
                k <= total,
                total == dim * dim,
                data@.len() == k,
                forall|q: int| 0 <= q < k ==> #[trigger] data@[q] == if q % (dim as int) == q / (dim as int) {
                    1i64
                } else {
                    0i64
                },
            decreases total - k,
        {
            let x: i64 = if k % dim == k / dim {
                1
            } else {
                0
            };
            data.push(x);
            k = k + 1;
        }
        let output = Matrix::new(dim, dim, data);
        assert forall|i: int, j: int| 0 <= i < dim && 0 <= j < dim implies #[trigger] output.at(
            i,
            j,
        ) == if i == j {
            1i64
        } else {
            0i64
        } by {
            let q = i * dim + j;
            lemma_index_in_range(i, j, dim as int, dim as int);
            assert(q % (dim as int) == j && q / (dim as int) == i) by {
                vstd::arithmetic::div_mod::lemma_fundamental_div_mod_converse(
                    q,
                    dim as int,
                    i,
                    j,
                );
            }
        }
        output
    }
}

impl StdFunc for Identity {
    open spec fn accepts(&self, args: Seq<Matrix>) -> bool {
        &&& args.len() == 1
        &&& args[0].wf()
        &&& args[0].rows == 1
        &&& args[0].cols == 1
        &&& requested_dim(args[0]) * requested_dim(args[0]) <= usize::MAX
    }

    open spec fn gives(&self, args: Seq<Matrix>, r: Matrix) -> bool {
        is_identity(r, requested_dim(args[0]))
    }

    fn eval(&self, args: Vec<Matrix>) -> (r: Matrix) {
        Self::evalpure(&args[0])
    }
}

/// The function handed out for an unknown name: it gives the empty matrix.
#[derive(Clone, Copy, Debug)]
pub struct Error;

impl StdFunc for Error {
    open spec fn accepts(&self, args: Seq<Matrix>) -> bool {
        true
    }

    open spec fn gives(&self, args: Seq<Matrix>, r: Matrix) -> bool {
        r.wf() && r.rows == 0 && r.cols == 0
    }

    fn eval(&self, args: Vec<Matrix>) -> (r: Matrix) {
        Matrix::new(0, 0, Vec::new())
    }
}

/// A function of the standard library, or the inert stand-in for a name that
/// names none.
#[derive(Clone, Copy, Debug)]
pub enum StdFunction {
    Identity(Identity),
    Error(Error),
}

impl StdFunction {
    /// Whether the lookup that produced this function failed.
    pub fn is_missing(&self) -> (r: bool)
        ensures
            r == (self is Error),
    {
        match self {
            StdFunction::Identity(_) => false,
            StdFunction::Error(_) => true,
        }
    }
}

impl StdFunc for StdFunction {
    open spec fn accepts(&self, args: Seq<Matrix>) -> bool {
        match self {
            StdFunction::Identity(f) => f.accepts(args),
            StdFunction::Error(f) => f.accepts(args),
        }
    }

    open spec fn gives(&self, args: Seq<Matrix>, r: Matrix) -> bool {
        match self {
            StdFunction::Identity(f) => f.gives(args, r),
            StdFunction::Error(f) => f.gives(args, r),
        }
    }

    fn eval(&self, args: Vec<Matrix>) -> (r: Matrix) {
        match self {
            StdFunction::Identity(f) => f.eval(args),
            StdFunction::Error(f) => f.eval(args),
        }
    }
}

/// The function of the standard library called `name`: `I` builds identity
/// matrices; any other name gives the inert `Error` function.
pub fn get_std_function(name: String) -> (r: StdFunction)
    ensures
        r is Identity <==> name@ == seq!['I'],
        r is Error <==> name@ != seq!['I'],
{
    let cs = chars_of(name.as_str());
    if cs.len() == 1 && cs[0] == 'I' {
        assert(cs@ =~= seq!['I']);
        StdFunction::Identity(Identity)
    } else {
        StdFunction::Error(Error)
    }
}

} // verus!
