use vstd::prelude::*;

verus! {

/// The rows of a matrix of vectors, as sequences.
pub open spec fn rows_of<V>(m: Seq<Vec<V>>) -> Seq<Seq<V>> {
    Seq::new(m.len(), |i: int| m[i]@)
}

/// Every row has the length of the first.
pub open spec fn is_rectangular<V>(m: Seq<Seq<V>>) -> bool {
    m.len() > 0 && forall|i: int| 0 <= i < m.len() ==> #[trigger] m[i].len() == m[0].len()
}

/// The transpose of a rectangular matrix: row `i` holds column `i`.
pub open spec fn transposed<V>(m: Seq<Seq<V>>) -> Seq<Seq<V>> {
    Seq::new(m[0].len(), |i: int| Seq::new(m.len(), |j: int| m[j][i]))
}

/// Transposes a matrix.
pub fn transpose_matrix<V: Copy>(matrix: Vec<Vec<V>>) -> (r: Vec<Vec<V>>)
    requires
        is_rectangular(rows_of(matrix@)),
    ensures
        rows_of(r@) == transposed(rows_of(matrix@)),
{
    let ghost m = rows_of(matrix@);
    let len = matrix[0].len();
    let rows = matrix.len();
    let mut r: Vec<Vec<V>> = Vec::new();
    let mut i: usize = 0;
    while i < len
        invariant
            m == rows_of(matrix@),
            is_rectangular(m),
            len == m[0].len(),
            rows == m.len(),
            i <= len,
            r@.len() == i,
            forall|a: int| 0 <= a < i ==> #[trigger] r@[a]@ == transposed(m)[a],
        decreases len - i,
    {
        let mut col: Vec<V> = Vec::new();
        let mut j: usize = 0;
        while j < rows
            invariant
                m == rows_of(matrix@),
                is_rectangular(m),
                len == m[0].len(),
                rows == m.len(),
                i < len,
                j <= rows,
                col@ =~= Seq::new(j as nat, |b: int| m[b][i as int]),
            decreases rows - j,
        {
            assert(m[j as int].len() == len);
            let x: V = matrix[j][i];
            col.push(x);
            j = j + 1;
        }
        r.push(col);
        i = i + 1;
    }
    proof {
        assert(rows_of(r@) =~= transposed(m));
    }
    r
}

/// Transposing twice gives back a rectangular matrix with at least one column.
pub proof fn lemma_transpose_twice<V>(m: Seq<Seq<V>>)
    requires
        is_rectangular(m),
        m[0].len() > 0,
    ensures
        is_rectangular(transposed(m)),
        transposed(transposed(m)) == m,
{
    let t = transposed(m);
    assert(t[0].len() == m.len());
    assert(transposed(t) =~~= m) by {
        assert forall|j: int| 0 <= j < m.len() implies #[trigger] transposed(t)[j] =~= m[j] by {
            assert(m[j].len() == m[0].len());
        }
    }
}

/// The number of chunks of `c` items that `n` items split into.
pub open spec fn chunk_count(n: nat, c: nat) -> nat {
    if c == 0 {
        0
    } else {
        ((n + c - 1) / (c as int)) as nat
    }
}

/// Splits `s` into chunks of `c` items (the last may be shorter) and left-pads
/// each chunk with `d` to `p` items.
pub open spec fn padded_chunks<V>(s: Seq<V>, c: nat, p: nat, d: V) -> Seq<V>
    decreases s.len(),
{
    if s.len() == 0 || c == 0 {
        Seq::empty()
    } else {
        let l = if s.len() < c {
            s.len()
        } else {
            c
        };
        Seq::new((p - l) as nat, |i: int| d) + s.take(l as int) + padded_chunks(
            s.skip(l as int),
            c,
            p,
            d,
        )
    }
}

/// `s` right-padded with `d` to `n` items.
pub open spec fn padded_to<V>(s: Seq<V>, n: nat, d: V) -> Seq<V> {
    Seq::new(n, |i: int| if i < s.len() { s[i] } else { d })
}

/// `s` cut into `rows` consecutive rows of `cols` items.
pub open spec fn reshaped<V>(s: Seq<V>, rows: nat, cols: nat) -> Seq<Seq<V>> {
    Seq::new(rows, |r: int| s.subrange(r * cols, r * cols + cols))
}

/// The column-major matrix that `slice_to_columns` lays out, with `d` as the
/// padding value.
pub open spec fn column_layout<V>(
    s: Seq<V>,
    c: nat,
    p: nat,
    rows: nat,
    cols: nat,
    d: V,
) -> Seq<Seq<V>> {
    transposed(reshaped(padded_to(padded_chunks(s, c, p, d), rows * cols, d), rows, cols))
}

proof fn lemma_padded_chunks_len<V>(s: Seq<V>, c: nat, p: nat, d: V)
    requires
        c > 0,
        p >= c,
    ensures
        padded_chunks(s, c, p, d).len() == chunk_count(s.len(), c) * p,
    decreases s.len(),
{
    if s.len() > 0 {
        let l: nat = if s.len() < c {
            s.len()
        } else {
            c
        };
        lemma_padded_chunks_len(s.skip(l as int), c, p, d);
        let n = s.len();
        assert(padded_chunks(s, c, p, d).len() == (p - l) + l + padded_chunks(
            s.skip(l as int),
            c,
            p,
            d,
        ).len());
        assert(s.skip(l as int).len() == n - l);
        if n < c {
            assert((n + c - 1) / (c as int) == 1) by (nonlinear_arith)
                requires
                    0 < n < c,
            ;
            assert(((n - l) + c - 1) / (c as int) == 0) by (nonlinear_arith)
                requires
                    n == l,
                    c > 0,
            ;
        } else {
            assert((n + c - 1) / (c as int) == 1 + ((n - c) + c - 1) / (c as int)) by (nonlinear_arith)
                requires
                    n >= c,
                    c > 0,
            ;
        }
        assert(chunk_count(n, c) == 1 + chunk_count((n - l) as nat, c));
        assert((1 + chunk_count((n - l) as nat, c)) * p == p + chunk_count((n - l) as nat, c) * p)
            by (nonlinear_arith);
        assert(padded_chunks(s.skip(l as int), c, p, d).len() == chunk_count((n - l) as nat, c) * p);
        assert(padded_chunks(s, c, p, d).len() == p + chunk_count((n - l) as nat, c) * p);
    } else {
        assert(padded_chunks(s, c, p, d).len() == 0);
        assert((c - 1) / (c as int) == 0) by (nonlinear_arith)
            requires
                c > 0,
        ;
        assert(chunk_count(0, c) == 0);
    }
}

/// Arranges `items` into a column-major matrix of `row_count` rows and
/// `column_count` columns. Each chunk of `chunk_size` items is left-padded
/// with the default value to `pad_chunk_to_size` items; the chunks fill the
/// matrix row by row, and trailing cells hold the default value.
pub fn slice_to_columns<V: Copy + Default>(
    items: &[V],
    chunk_size: usize,
    pad_chunk_to_size: usize,
    row_count: usize,
    column_count: usize,
) -> (r: Vec<Vec<V>>)
    requires
        chunk_size > 0,
        pad_chunk_to_size >= chunk_size,
        row_count > 0,
        column_count > 0,
        row_count * column_count <= usize::MAX,
        chunk_count(items@.len(), chunk_size as nat) * pad_chunk_to_size <= row_count
            * column_count,
    ensures
        exists|d: V|
            call_ensures(V::default, (), d) && rows_of(r@) == column_layout(
                items@,
                chunk_size as nat,
                pad_chunk_to_size as nat,
                row_count as nat,
                column_count as nat,
                d,
            ),
{
    let total = row_count * column_count;
    let d = V::default();
    let ghost c = chunk_size as nat;
    let ghost p = pad_chunk_to_size as nat;
    let ghost whole = padded_chunks(items@, c, p, d);
    proof {
        lemma_padded_chunks_len(items@, c, p, d);
    }
    let n = items.len();
    let mut flat: Vec<V> = Vec::new();
    let mut pos: usize = 0;
    proof {
        assert(items@.skip(0) =~= items@);
        assert(flat@ + whole =~= whole);
    }
    while pos < n
        invariant
            n == items@.len(),
            c == chunk_size,
            p == pad_chunk_to_size,
            c > 0,
            p >= c,
            pos <= n,
            whole == padded_chunks(items@, c, p, d),
            whole.len() <= total,
            flat@ + padded_chunks(items@.skip(pos as int), c, p, d) == whole,
        decreases n - pos,
    {
        let rest = n - pos;
        let l = if rest < chunk_size {
            rest
        } else {
            chunk_size
        };
        let ghost s = items@.skip(pos as int);
        let ghost before = flat@;
        proof {
            assert(s.skip(l as int) =~= items@.skip((pos + l) as int));
            assert(padded_chunks(s, c, p, d) == Seq::new((p - l) as nat, |i: int| d) + s.take(
                l as int,
            ) + padded_chunks(s.skip(l as int), c, p, d));
        }
        let mut q: usize = 0;
        while q < pad_chunk_to_size - l
            invariant
                l <= pad_chunk_to_size,
                q <= pad_chunk_to_size - l,
                flat@ =~= before + Seq::new(q as nat, |i: int| d),
            decreases pad_chunk_to_size - l - q,
        {
            flat.push(d);
            q = q + 1;
        }
        let mut q: usize = 0;
        while q < l
            invariant
                pos + l <= n,
                n == items@.len(),
                s == items@.skip(pos as int),
                q <= l,
                flat@ =~= before + Seq::new((p - l) as nat, |i: int| d) + s.take(q as int),
            decreases l - q,
        {
            flat.push(items[pos + q]);
            q = q + 1;
        }
        proof {
            let tail = padded_chunks(s.skip(l as int), c, p, d);
            assert(flat@ + tail =~= before + (Seq::new((p - l) as nat, |i: int| d) + s.take(
                l as int,
            ) + tail));
        }
        pos = pos + l;
    }
    proof {
        assert(items@.skip(n as int) =~= Seq::<V>::empty());
        assert(flat@ =~= whole);
    }
    while flat.len() < total
        invariant
            whole.len() <= total,
            whole.len() <= flat@.len() <= total,
            flat@ =~= padded_to(whole, total as nat, d).take(flat@.len() as int),
        decreases total - flat@.len(),
    {
        flat.push(d);
    }
    let ghost full = padded_to(whole, total as nat, d);
    proof {
        assert(flat@ =~= full);
    }
    let mut rows: Vec<Vec<V>> = Vec::new();
    let mut i: usize = 0;
    while i < row_count
        invariant
            total == row_count * column_count,
            flat@ == full,
            full.len() == total,
            i <= row_count,
            rows@.len() == i,
            forall|a: int| 0 <= a < i ==> #[trigger] rows@[a]@ == reshaped(
                full,
                row_count as nat,
                column_count as nat,
            )[a],
        decreases row_count - i,
    {
        assert(i * column_count + column_count <= total) by (nonlinear_arith)
            requires
                i < row_count,
                total == row_count * column_count,
        ;
        let start = i * column_count;
        let mut row: Vec<V> = Vec::new();
        let mut j: usize = 0;
        while j < column_count
            invariant
                start == i * column_count,
                start + column_count <= total,
                flat@ == full,
                full.len() == total,
                j <= column_count,
                row@ =~= full.subrange(start as int, start + j),
            decreases column_count - j,
        {
            row.push(flat[start + j]);
            j = j + 1;
        }
        rows.push(row);
        i = i + 1;
    }
    proof {
        let shaped = reshaped(full, row_count as nat, column_count as nat);
        assert(rows_of(rows@) =~= shaped);
        assert(0 * (column_count as int) == 0);
        assert(column_count <= total) by (nonlinear_arith)
            requires
                row_count > 0,
                total == row_count * column_count,
        ;
        assert(shaped[0] == full.subrange(0, column_count as int));
        assert(shaped[0].len() == column_count);
        assert forall|a: int| 0 <= a < shaped.len() implies #[trigger] shaped[a].len()
            == shaped[0].len() by {
            assert(a * column_count + column_count <= total) by (nonlinear_arith)
                requires
                    0 <= a < row_count,
                    total == row_count * column_count,
            ;
        }
    }
    let r = transpose_matrix(rows);
    proof {
        assert(call_ensures(V::default, (), d));
        assert(rows_of(r@) == column_layout(
            items@,
            chunk_size as nat,
            pad_chunk_to_size as nat,
            row_count as nat,
            column_count as nat,
            d,
        ));
    }
    r
}

} // verus!
