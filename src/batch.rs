use vstd::prelude::*;

verus! {

/// Why a batch could not be assembled or taken apart.
#[derive(Clone, Copy, Debug, PartialEq, Eq, Structural)]
pub enum BatchError {
    /// An input item does not have the size every item of the batch must have.
    Shape,
    /// The model output does not hold one row of the stated width per item.
    Output,
}

/// The views of a sequence of vectors.
pub open spec fn views_of<T>(items: Seq<Vec<T>>) -> Seq<Seq<T>> {
    items.map_values(|v: Vec<T>| v@)
}

/// Row `i` of a row-major buffer whose rows are `width` long.
pub open spec fn row_of<T>(flat: Seq<T>, width: nat, i: int) -> Seq<T> {
    flat.subrange(i * width, (i + 1) * width)
}

/// The `count` rows of a row-major buffer whose rows are `width` long.
pub open spec fn rows_of<T>(flat: Seq<T>, width: nat, count: nat) -> Seq<Seq<T>> {
    Seq::new(count, |i: int| row_of(flat, width, i))
}

proof fn lemma_flatten_push<T>(s: Seq<Seq<T>>, x: Seq<T>)
    ensures
        s.push(x).flatten() == s.flatten() + x,
{
    vstd::seq_lib::lemma_flatten_concat(s, seq![x]);
    assert(s + seq![x] =~= s.push(x));
    seq![x].lemma_flatten_one_element();
}

/// The token ids and attention mask handed to the text branch of the
/// two-branch model when only images are encoded: one zero per batch item.
/// The model graph refuses to run without them.
pub fn text_placeholder(batch: usize) -> (r: Vec<i64>)
    ensures
        r@ == Seq::new(batch as nat, |i: int| 0i64),
{
    let r = vec![0i64; batch];
    assert(r@ =~= Seq::new(batch as nat, |i: int| 0i64));
    r
}

/// Taking a batch apart undoes putting it together: when every item holds
/// `width` values, their concatenation is `items.len()` rows of `width`, and
/// row `k` is item `k`.
pub proof fn lemma_split_inverts_concat<T>(items: Seq<Seq<T>>, width: nat)
    requires
        forall|k: int| 0 <= k < items.len() ==> items[k].len() == width,
    ensures
        items.flatten().len() == items.len() * width,
        rows_of(items.flatten(), width, items.len()) == items,
    decreases items.len(),
{
    if items.len() == 0 {
        assert(rows_of(items.flatten(), width, 0) =~= items);
    } else {
        let rest = items.drop_first();
        lemma_split_inverts_concat(rest, width);
        let flat = items.flatten();
        assert(flat == items[0] + rest.flatten());
        assert(flat.len() == items.len() * width) by (nonlinear_arith)
            requires
                flat.len() == width + rest.len() * width,
                rest.len() == items.len() - 1,
        ;
        assert forall|i: int| 0 <= i < items.len() implies #[trigger] row_of(flat, width, i) == items[i] by {
            if i == 0 {
                assert(0 * width == 0 && (0 + 1) * width == width) by (nonlinear_arith);
                assert(row_of(flat, width, 0) =~= items[0]);
            } else {
                assert(i * width == (i - 1) * width + width && (i + 1) * width == i * width + width)
                    by (nonlinear_arith);
                assert((i - 1) * width >= 0 && i * width <= rest.len() * width) by (nonlinear_arith)
                    requires
                        1 <= i <= rest.len(),
                ;
                assert(row_of(rest.flatten(), width, i - 1) == rest[i - 1]);
                assert(row_of(flat, width, i) =~= row_of(rest.flatten(), width, i - 1));
            }
        }
        assert(rows_of(flat, width, items.len()) =~= items);
    }
}

/// Lays the items end to end along the batch axis: the concatenation of
/// item tensors that each carry a batch axis of one. Every item must hold
/// `item_len` values; otherwise the batch is refused with `Shape`.
pub fn concat_batch<T: Copy>(items: &Vec<Vec<T>>, item_len: usize) -> (r: Result<Vec<T>, BatchError>)
    ensures
        r is Ok <==> forall|k: int| 0 <= k < items@.len() ==> items@[k]@.len() == item_len,
        r matches Ok(v) ==> v@ == views_of(items@).flatten(),
{
    let mut out: Vec<T> = Vec::new();
    let mut k: usize = 0;
    while k < items.len()
        invariant
            k <= items@.len(),
            forall|j: int| 0 <= j < k ==> items@[j]@.len() == item_len,
            out@ == views_of(items@).take(k as int).flatten(),
        decreases items@.len() - k,
    {
        let item = &items[k];
        if item.len() != item_len {
            return Err(BatchError::Shape);
        }
        let ghost base = out@;
        let mut j: usize = 0;
        while j < item.len()
            invariant
                j <= item@.len(),
                out@ == base + item@.take(j as int),
            decreases item@.len() - j,
        {
            out.push(item[j]);
            proof {
                assert(item@.take(j as int).push(item@[j as int]) =~= item@.take(j + 1));
            }
            j = j + 1;
        }
        proof {
            assert(item@.take(j as int) =~= item@);
            assert(views_of(items@).take(k + 1) =~= views_of(items@).take(k as int).push(item@));
            lemma_flatten_push(views_of(items@).take(k as int), item@);
        }
        k = k + 1;
    }
    proof {
        assert(views_of(items@).take(k as int) =~= views_of(items@));
    }
    Ok(out)
}

/// Splits a row-major output of `count` rows, each `width` long, into its
/// rows. Fails with `Output` unless the buffer holds exactly that many values.
pub fn split_batch<T: Copy>(flat: &Vec<T>, count: usize, width: usize) -> (r: Result<
    Vec<Vec<T>>,
    BatchError,
>)
    ensures
        r is Ok <==> flat@.len() == count * width,
        r matches Ok(rows) ==> views_of(rows@) == rows_of(flat@, width as nat, count as nat),
{
    let n = flat.len();
    let total = match count.checked_mul(width) {
        Some(t) => t,
        None => {
            return Err(BatchError::Output);
        },
    };
    if n != total {
        return Err(BatchError::Output);
    }
    let mut rows: Vec<Vec<T>> = Vec::new();
    let mut i: usize = 0;
    while i < count
        invariant
            i <= count,
            n == flat@.len(),
            flat@.len() == count * width,
            rows@.len() == i,
            forall|k: int| 0 <= k < i ==> rows@[k]@ == row_of(flat@, width as nat, k),
        decreases count - i,
    {
        assert(i * width + width <= count * width) by (nonlinear_arith)
            requires
                i < count,
        ;
        assert((i + 1) * width == i * width + width) by (nonlinear_arith);
        let start = i * width;
        let mut row: Vec<T> = Vec::new();
        let mut j: usize = 0;
        while j < width
            invariant
                j <= width,
                start == i * width,
                start + width <= n,
                n == flat@.len(),
                row@ == flat@.subrange(start as int, start + j),
            decreases width - j,
        {
            row.push(flat[start + j]);
            proof {
                assert(flat@.subrange(start as int, start + j).push(flat@[start + j]) =~= flat@.subrange(
                    start as int,
                    start + j + 1,
                ));
            }
            j = j + 1;
        }
        rows.push(row);
        i = i + 1;
    }
    proof {
        assert(views_of(rows@) =~= rows_of(flat@, width as nat, count as nat));
    }
    Ok(rows)
}

} // verus!
