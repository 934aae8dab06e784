//! Snapshots: the parameters of a network as bytes.
//!
//! A snapshot holds, in little-endian order, the number of layers as 64 bits;
//! for each layer the number of its parameter rows as 64 bits; for each row
//! its length as 64 bits, then the 32-bit pattern of each entry. Nothing
//! follows the last layer.
use vstd::prelude::*;
use vstd::bytes::{
    lemma_auto_spec_u32_to_from_le_bytes, lemma_auto_spec_u64_to_from_le_bytes,
    spec_u32_from_le_bytes, spec_u32_to_le_bytes, spec_u64_from_le_bytes, spec_u64_to_le_bytes,
    u32_from_le_bytes, u32_to_le_bytes, u64_from_le_bytes, u64_to_le_bytes,
};
use vstd::slice::slice_subrange;
use crate::error::Error;
use crate::matrix::rows_of;
use crate::scalar::Scalar;

verus! {

/// The entries of a row, four bytes each.
pub open spec fn entries_bytes<T: Scalar>(row: Seq<T>) -> Seq<u8>
    decreases row.len(),
{
    if row.len() == 0 {
        Seq::empty()
    } else {
        entries_bytes(row.drop_last()) + spec_u32_to_le_bytes(row.last().bits())
    }
}

/// A row: its length, then its entries.
pub open spec fn row_bytes<T: Scalar>(row: Seq<T>) -> Seq<u8> {
    spec_u64_to_le_bytes(row.len() as u64) + entries_bytes(row)
}

/// Rows, one after the other.
pub open spec fn rows_bytes<T: Scalar>(rows: Seq<Seq<T>>) -> Seq<u8>
    decreases rows.len(),
{
    if rows.len() == 0 {
        Seq::empty()
    } else {
        rows_bytes(rows.drop_last()) + row_bytes(rows.last())
    }
}

/// A layer: the number of its rows, then the rows.
pub open spec fn layer_bytes<T: Scalar>(rows: Seq<Seq<T>>) -> Seq<u8> {
    spec_u64_to_le_bytes(rows.len() as u64) + rows_bytes(rows)
}

/// Layers, one after the other.
pub open spec fn layers_bytes<T: Scalar>(layers: Seq<Seq<Seq<T>>>) -> Seq<u8>
    decreases layers.len(),
{
    if layers.len() == 0 {
        Seq::empty()
    } else {
        layers_bytes(layers.drop_last()) + layer_bytes(layers.last())
    }
}

/// The snapshot of the parameters of a network.
pub open spec fn encoded<T: Scalar>(layers: Seq<Seq<Seq<T>>>) -> Seq<u8> {
    spec_u64_to_le_bytes(layers.len() as u64) + layers_bytes(layers)
}

/// The 64-bit number at `pos` and the position behind it, where eight bytes
/// are left.
pub open spec fn parse_count(bytes: Seq<u8>, pos: int) -> Option<(u64, int)> {
    if 0 <= pos && pos + 8 <= bytes.len() {
        Some((spec_u64_from_le_bytes(bytes.subrange(pos, pos + 8)), pos + 8))
    } else {
        None
    }
}

/// `n` entries from `pos` on, and the position behind them.
pub open spec fn parse_entries<T: Scalar>(bytes: Seq<u8>, pos: int, n: nat) -> Option<
    (Seq<T>, int),
>
    decreases n,
{
    if n == 0 {
        if 0 <= pos <= bytes.len() {
            Some((Seq::empty(), pos))
        } else {
            None
        }
    } else {
        match parse_entries::<T>(bytes, pos, (n - 1) as nat) {
            Some((row, p)) => if p + 4 <= bytes.len() {
                Some(
                    (
                        row.push(T::of_bits(spec_u32_from_le_bytes(bytes.subrange(p, p + 4)))),
                        p + 4,
                    ),
                )
            } else {
                None
            },
            None => None,
        }
    }
}

/// `n` rows from `pos` on, and the position behind them.
pub open spec fn parse_rows<T: Scalar>(bytes: Seq<u8>, pos: int, n: nat) -> Option<
    (Seq<Seq<T>>, int),
>
    decreases n,
{
    if n == 0 {
        if 0 <= pos <= bytes.len() {
            Some((Seq::empty(), pos))
        } else {
            None
        }
    } else {
        match parse_rows::<T>(bytes, pos, (n - 1) as nat) {
            Some((rows, p)) => match parse_count(bytes, p) {
                Some((len, q)) => match parse_entries::<T>(bytes, q, len as nat) {
                    Some((row, r)) => Some((rows.push(row), r)),
                    None => None,
                },
                None => None,
            },
            None => None,
        }
    }
}

/// `n` layers from `pos` on, and the position behind them.
pub open spec fn parse_layers<T: Scalar>(bytes: Seq<u8>, pos: int, n: nat) -> Option<
    (Seq<Seq<Seq<T>>>, int),
>
    decreases n,
{
    if n == 0 {
        if 0 <= pos <= bytes.len() {
            Some((Seq::empty(), pos))
        } else {
            None
        }
    } else {
        match parse_layers::<T>(bytes, pos, (n - 1) as nat) {
            Some((layers, p)) => match parse_count(bytes, p) {
                Some((len, q)) => match parse_rows::<T>(bytes, q, len as nat) {
                    Some((rows, r)) => Some((layers.push(rows), r)),
                    None => None,
                },
                None => None,
            },
            None => None,
        }
    }
}

/// The parameters that a snapshot holds, or `None` where the bytes are no
/// snapshot: they end too early, or go on behind the last layer.
pub open spec fn decoded<T: Scalar>(bytes: Seq<u8>) -> Option<Seq<Seq<Seq<T>>>> {
    match parse_count(bytes, 0) {
        Some((n, p)) => match parse_layers::<T>(bytes, p, n as nat) {
            Some((layers, q)) => if q == bytes.len() {
                Some(layers)
            } else {
                None
            },
            None => None,
        },
        None => None,
    }
}

/// Every length in the parameters can be written in 64 bits.
pub open spec fn encodable<T>(layers: Seq<Seq<Seq<T>>>) -> bool {
    &&& layers.len() <= u64::MAX
    &&& forall|i: int| 0 <= i < layers.len() ==> (#[trigger] layers[i]).len() <= u64::MAX
    &&& forall|i: int, j: int|
        0 <= i < layers.len() && 0 <= j < layers[i].len() ==> (#[trigger] layers[i][j]).len()
            <= u64::MAX
}

proof fn lemma_entries_length<T: Scalar>(row: Seq<T>)
    ensures
        entries_bytes(row).len() == 4 * row.len(),
    decreases row.len(),
{
    lemma_auto_spec_u32_to_from_le_bytes();
    if row.len() > 0 {
        lemma_entries_length(row.drop_last());
    }
}

proof fn lemma_parse_entries<T: Scalar>(bytes: Seq<u8>, pos: int, row: Seq<T>)
    requires
        0 <= pos,
        pos + entries_bytes(row).len() <= bytes.len(),
        bytes.subrange(pos, pos + entries_bytes(row).len()) == entries_bytes(row),
    ensures
        parse_entries::<T>(bytes, pos, row.len()) == Some((row, pos + entries_bytes(row).len())),
    decreases row.len(),
{
    lemma_auto_spec_u32_to_from_le_bytes();
    lemma_entries_length(row);
    if row.len() > 0 {
        let front = row.drop_last();
        let last = spec_u32_to_le_bytes(row.last().bits());
        lemma_entries_length(front);
        let mid = pos + entries_bytes(front).len();
        assert(bytes.subrange(pos, mid) =~= entries_bytes(front)) by {
            assert(entries_bytes(row) == entries_bytes(front) + last);
            assert forall|i: int| 0 <= i < entries_bytes(front).len() implies bytes.subrange(
                pos,
                mid,
            )[i] == entries_bytes(front)[i] by {
                assert(bytes.subrange(pos, pos + entries_bytes(row).len())[i] == entries_bytes(
                    row,
                )[i]);
            }
        }
        lemma_parse_entries(bytes, pos, front);
        assert(bytes.subrange(mid, mid + 4) =~= last) by {
            assert forall|i: int| 0 <= i < 4 implies bytes.subrange(mid, mid + 4)[i] == last[i] by {
                assert(bytes.subrange(pos, pos + entries_bytes(row).len())[entries_bytes(
                    front,
                ).len() + i] == entries_bytes(row)[entries_bytes(front).len() + i]);
            }
        }
        T::bits_round_trip(row.last());
        assert(front.push(row.last()) =~= row);
    }
}

proof fn lemma_parse_count(bytes: Seq<u8>, pos: int, n: u64)
    requires
        0 <= pos,
        pos + 8 <= bytes.len(),
        bytes.subrange(pos, pos + 8) == spec_u64_to_le_bytes(n),
    ensures
        parse_count(bytes, pos) == Some((n, pos + 8)),
{
    lemma_auto_spec_u64_to_from_le_bytes();
}

/// A slice of a slice that starts `a` bytes in.
proof fn lemma_inner_subrange(bytes: Seq<u8>, pos: int, whole: Seq<u8>, a: int, part: Seq<u8>)
    requires
        0 <= pos,
        0 <= a,
        a + part.len() <= whole.len(),
        pos + whole.len() <= bytes.len(),
        bytes.subrange(pos, pos + whole.len()) == whole,
        whole.subrange(a, a + part.len()) == part,
    ensures
        bytes.subrange(pos + a, pos + a + part.len()) == part,
{
    assert(bytes.subrange(pos + a, pos + a + part.len()) =~= part) by {
        assert forall|i: int| 0 <= i < part.len() implies bytes.subrange(
            pos + a,
            pos + a + part.len(),
        )[i] == part[i] by {
            assert(bytes.subrange(pos, pos + whole.len())[a + i] == whole[a + i]);
            assert(whole.subrange(a, a + part.len())[i] == part[i]);
        }
    }
}

proof fn lemma_parse_row<T: Scalar>(bytes: Seq<u8>, pos: int, row: Seq<T>)
    requires
        0 <= pos,
        row.len() <= u64::MAX,
        pos + row_bytes(row).len() <= bytes.len(),
        bytes.subrange(pos, pos + row_bytes(row).len()) == row_bytes(row),
    ensures
        parse_count(bytes, pos) == Some((row.len() as u64, pos + 8)),
        parse_entries::<T>(bytes, pos + 8, row.len()) == Some((row, pos + row_bytes(row).len())),
{
    lemma_auto_spec_u64_to_from_le_bytes();
    let head = spec_u64_to_le_bytes(row.len() as u64);
    let body = entries_bytes(row);
    assert(row_bytes(row).subrange(0, 8) =~= head);
    assert(row_bytes(row).subrange(8, 8 + body.len() as int) =~= body);
    lemma_inner_subrange(bytes, pos, row_bytes(row), 0, head);
    lemma_inner_subrange(bytes, pos, row_bytes(row), 8, body);
    lemma_parse_count(bytes, pos, row.len() as u64);
    lemma_parse_entries(bytes, pos + 8, row);
}

proof fn lemma_parse_rows<T: Scalar>(bytes: Seq<u8>, pos: int, rows: Seq<Seq<T>>)
    requires
        0 <= pos,
        forall|j: int| 0 <= j < rows.len() ==> (#[trigger] rows[j]).len() <= u64::MAX,
        pos + rows_bytes(rows).len() <= bytes.len(),
        bytes.subrange(pos, pos + rows_bytes(rows).len()) == rows_bytes(rows),
    ensures
        parse_rows::<T>(bytes, pos, rows.len()) == Some((rows, pos + rows_bytes(rows).len())),
    decreases rows.len(),
{
    if rows.len() > 0 {
        let front = rows.drop_last();
        let whole = rows_bytes(rows);
        let first = rows_bytes(front);
        let last = row_bytes(rows.last());
        assert(whole == first + last);
        assert(whole.subrange(0, first.len() as int) =~= first);
        assert(whole.subrange(first.len() as int, first.len() as int + last.len() as int) =~= last);
        lemma_inner_subrange(bytes, pos, whole, 0, first);
        lemma_inner_subrange(bytes, pos, whole, first.len() as int, last);
        assert forall|j: int| 0 <= j < front.len() implies (#[trigger] front[j]).len()
            <= u64::MAX by {
            assert(front[j] == rows[j]);
        }
        lemma_parse_rows(bytes, pos, front);
        lemma_parse_row(bytes, pos + first.len(), rows.last());
        assert(front.push(rows.last()) =~= rows);
    }
}

proof fn lemma_parse_layer<T: Scalar>(bytes: Seq<u8>, pos: int, rows: Seq<Seq<T>>)
    requires
        0 <= pos,
        rows.len() <= u64::MAX,
        forall|j: int| 0 <= j < rows.len() ==> (#[trigger] rows[j]).len() <= u64::MAX,
        pos + layer_bytes(rows).len() <= bytes.len(),
        bytes.subrange(pos, pos + layer_bytes(rows).len()) == layer_bytes(rows),
    ensures
        parse_count(bytes, pos) == Some((rows.len() as u64, pos + 8)),
        parse_rows::<T>(bytes, pos + 8, rows.len()) == Some(
            (rows, pos + layer_bytes(rows).len()),
        ),
{
    lemma_auto_spec_u64_to_from_le_bytes();
    let head = spec_u64_to_le_bytes(rows.len() as u64);
    let body = rows_bytes(rows);
    assert(layer_bytes(rows).subrange(0, 8) =~= head);
    assert(layer_bytes(rows).subrange(8, 8 + body.len() as int) =~= body);
    lemma_inner_subrange(bytes, pos, layer_bytes(rows), 0, head);
    lemma_inner_subrange(bytes, pos, layer_bytes(rows), 8, body);
    lemma_parse_count(bytes, pos, rows.len() as u64);
    lemma_parse_rows(bytes, pos + 8, rows);
}

proof fn lemma_parse_layers<T: Scalar>(bytes: Seq<u8>, pos: int, layers: Seq<Seq<Seq<T>>>)
    requires
        0 <= pos,
        encodable(layers),
        pos + layers_bytes(layers).len() <= bytes.len(),
        bytes.subrange(pos, pos + layers_bytes(layers).len()) == layers_bytes(layers),
    ensures
        parse_layers::<T>(bytes, pos, layers.len()) == Some(
            (layers, pos + layers_bytes(layers).len()),
        ),
    decreases layers.len(),
{
    if layers.len() > 0 {
        let front = layers.drop_last();
        let whole = layers_bytes(layers);
        let first = layers_bytes(front);
        let last = layer_bytes(layers.last());
        assert(whole == first + last);
        assert(whole.subrange(0, first.len() as int) =~= first);
        assert(whole.subrange(first.len() as int, first.len() as int + last.len() as int) =~= last);
        lemma_inner_subrange(bytes, pos, whole, 0, first);
        lemma_inner_subrange(bytes, pos, whole, first.len() as int, last);
        assert(encodable(front)) by {
            assert forall|i: int| 0 <= i < front.len() implies (#[trigger] front[i]).len()
                <= u64::MAX by {
                assert(front[i] == layers[i]);
            }
            assert forall|i: int, j: int|
                0 <= i < front.len() && 0 <= j < front[i].len() implies (
            #[trigger] front[i][j]).len() <= u64::MAX by {
                assert(front[i][j] == layers[i][j]);
            }
        }
        lemma_parse_layers(bytes, pos, front);
        let rows = layers.last();
        assert(rows == layers[layers.len() - 1]);
        assert forall|j: int| 0 <= j < rows.len() implies (#[trigger] rows[j]).len()
            <= u64::MAX by {
            assert(rows[j] == layers[layers.len() - 1][j]);
        }
        lemma_parse_layer(bytes, pos + first.len(), rows);
        assert(front.push(rows) =~= layers);
    }
}

/// Reading a snapshot back gives the parameters that were written.
pub proof fn lemma_snapshot_round_trip<T: Scalar>(layers: Seq<Seq<Seq<T>>>)
    requires
        encodable(layers),
    ensures
        decoded::<T>(encoded(layers)) == Some(layers),
{
    lemma_auto_spec_u64_to_from_le_bytes();
    let bytes = encoded(layers);
    let head = spec_u64_to_le_bytes(layers.len() as u64);
    let body = layers_bytes(layers);
    assert(bytes.subrange(0, 8) =~= head);
    assert(bytes.subrange(8, 8 + body.len() as int) =~= body);
    lemma_parse_count(bytes, 0, layers.len() as u64);
    lemma_parse_layers(bytes, 8, layers);
}

/// The parameters held in nested vectors, layer by layer and row by row.
pub open spec fn layers_of<T>(data: Seq<Vec<Vec<T>>>) -> Seq<Seq<Seq<T>>> {
    Seq::new(data.len(), |i: int| rows_of(data[i]@))
}

proof fn lemma_entries_stay_none<T: Scalar>(bytes: Seq<u8>, pos: int, j: nat, k: nat)
    requires
        j <= k,
        parse_entries::<T>(bytes, pos, j) is None,
    ensures
        parse_entries::<T>(bytes, pos, k) is None,
    decreases k,
{
    if j < k {
        lemma_entries_stay_none::<T>(bytes, pos, j, (k - 1) as nat);
    }
}

proof fn lemma_rows_stay_none<T: Scalar>(bytes: Seq<u8>, pos: int, j: nat, k: nat)
    requires
        j <= k,
        parse_rows::<T>(bytes, pos, j) is None,
    ensures
        parse_rows::<T>(bytes, pos, k) is None,
    decreases k,
{
    if j < k {
        lemma_rows_stay_none::<T>(bytes, pos, j, (k - 1) as nat);
    }
}

proof fn lemma_layers_stay_none<T: Scalar>(bytes: Seq<u8>, pos: int, j: nat, k: nat)
    requires
        j <= k,
        parse_layers::<T>(bytes, pos, j) is None,
    ensures
        parse_layers::<T>(bytes, pos, k) is None,
    decreases k,
{
    if j < k {
        lemma_layers_stay_none::<T>(bytes, pos, j, (k - 1) as nat);
    }
}

/// What nested vectors hold can be written: no vector is longer than 64 bits
/// can say.
proof fn lemma_vectors_are_encodable<T>(data: Seq<Vec<Vec<T>>>)
    requires
        data.len() <= usize::MAX,
    ensures
        encodable(layers_of(data)),
{
    let layers = layers_of(data);
    assert forall|i: int| 0 <= i < layers.len() implies (#[trigger] layers[i]).len()
        <= u64::MAX by {
        assert(data[i]@.len() == data[i].len());
    }
    assert forall|i: int, j: int| 0 <= i < layers.len() && 0 <= j < layers[i].len() implies (
    #[trigger] layers[i][j]).len() <= u64::MAX by {
        assert(data[i]@[j]@.len() == data[i]@[j].len());
    }
}

fn write_count(out: &mut Vec<u8>, n: usize)
    ensures
        final(out)@ == old(out)@ + spec_u64_to_le_bytes(n as u64),
{
    let mut chunk: Vec<u8> = u64_to_le_bytes(n as u64);
    out.append(&mut chunk);
}

fn write_entries<T: Scalar>(out: &mut Vec<u8>, row: &Vec<T>)
    ensures
        final(out)@ == old(out)@ + entries_bytes(row@),
{
    let mut i: usize = 0;
    assert(out@ =~= old(out)@ + entries_bytes(row@.take(0)));
    while i < row.len()
        invariant
            i <= row@.len(),
            out@ == old(out)@ + entries_bytes(row@.take(i as int)),
        decreases row.len() - i,
    {
        let mut chunk: Vec<u8> = u32_to_le_bytes(row[i].to_bits());
        out.append(&mut chunk);
        proof {
            let next = row@.take(i + 1);
            assert(next.drop_last() =~= row@.take(i as int));
            assert(next.last() == row@[i as int]);
            assert(out@ =~= old(out)@ + entries_bytes(next));
        }
        i += 1;
    }
    assert(row@.take(row@.len() as int) =~= row@);
}

fn write_rows<T: Scalar>(out: &mut Vec<u8>, rows: &Vec<Vec<T>>)
    ensures
        final(out)@ == old(out)@ + rows_bytes(rows_of(rows@)),
{
    let ghost all = rows_of(rows@);
    let mut i: usize = 0;
    assert(out@ =~= old(out)@ + rows_bytes(all.take(0)));
    while i < rows.len()
        invariant
            i <= rows@.len(),
            all == rows_of(rows@),
            out@ == old(out)@ + rows_bytes(all.take(i as int)),
        decreases rows.len() - i,
    {
        let ghost before = out@;
        write_count(out, rows[i].len());
        write_entries(out, &rows[i]);
        proof {
            let next = all.take(i + 1);
            assert(next.drop_last() =~= all.take(i as int));
            assert(next.last() == rows@[i as int]@);
            assert(out@ =~= before + row_bytes(rows@[i as int]@));
            assert(out@ =~= old(out)@ + rows_bytes(next));
        }
        i += 1;
    }
    assert(all.take(all.len() as int) =~= all);
}

/// Writes the snapshot of the given parameters.
pub fn encode<T: Scalar>(layers: &Vec<Vec<Vec<T>>>) -> (r: Vec<u8>)
    ensures
        r@ == encoded(layers_of(layers@)),
        encodable(layers_of(layers@)),
{
    proof {
        assert(layers@.len() == layers.len());
        lemma_vectors_are_encodable(layers@);
    }
    let ghost all = layers_of(layers@);
    let mut out: Vec<u8> = Vec::new();
    write_count(&mut out, layers.len());
    let ghost head = out@;
    let mut i: usize = 0;
    assert(out@ =~= head + layers_bytes(all.take(0)));
    while i < layers.len()
        invariant
            i <= layers@.len(),
            all == layers_of(layers@),
            head == spec_u64_to_le_bytes(layers@.len() as u64),
            out@ == head + layers_bytes(all.take(i as int)),
        decreases layers.len() - i,
    {
        let ghost before = out@;
        write_count(&mut out, layers[i].len());
        write_rows(&mut out, &layers[i]);
        proof {
            let next = all.take(i + 1);
            assert(next.drop_last() =~= all.take(i as int));
            assert(next.last() == rows_of(layers@[i as int]@));
            assert(rows_of(layers@[i as int]@).len() == layers@[i as int]@.len());
            assert(out@ =~= before + layer_bytes(rows_of(layers@[i as int]@)));
            assert(out@ =~= head + layers_bytes(next));
        }
        i += 1;
    }
    assert(all.take(all.len() as int) =~= all);
    out
}

fn read_count(bytes: &[u8], pos: usize) -> (r: Option<(u64, usize)>)
    requires
        pos <= bytes@.len(),
    ensures
        match parse_count(bytes@, pos as int) {
            Some((n, p)) => r is Some && r.unwrap().0 == n && r.unwrap().1 == p && p
                <= bytes@.len(),
            None => r is None,
        },
{
    if bytes.len() - pos < 8 {
        return None;
    }
    let n: u64 = u64_from_le_bytes(slice_subrange(bytes, pos, pos + 8));
    Some((n, pos + 8))
}

fn read_entries<T: Scalar>(bytes: &[u8], pos: usize, n: u64) -> (r: Option<(Vec<T>, usize)>)
    requires
        pos <= bytes@.len(),
    ensures
        match parse_entries::<T>(bytes@, pos as int, n as nat) {
            Some((row, p)) => r is Some && r.unwrap().0@ == row && r.unwrap().1 == p && p
                <= bytes@.len(),
            None => r is None,
        },
{
    let mut out: Vec<T> = Vec::new();
    let mut p: usize = pos;
    let mut i: u64 = 0;
    while i < n
        invariant
            i <= n,
            p <= bytes@.len(),
            parse_entries::<T>(bytes@, pos as int, i as nat) == Some((out@, p as int)),
        decreases n - i,
    {
        if bytes.len() - p < 4 {
            proof {
                lemma_entries_stay_none::<T>(bytes@, pos as int, (i + 1) as nat, n as nat);
            }
            return None;
        }
        let word: u32 = u32_from_le_bytes(slice_subrange(bytes, p, p + 4));
        out.push(T::from_bits(word));
        p += 4;
        i += 1;
    }
    Some((out, p))
}

fn read_rows<T: Scalar>(bytes: &[u8], pos: usize, n: u64) -> (r: Option<(Vec<Vec<T>>, usize)>)
    requires
        pos <= bytes@.len(),
    ensures
        match parse_rows::<T>(bytes@, pos as int, n as nat) {
            Some((rows, p)) => r is Some && rows_of(r.unwrap().0@) == rows && r.unwrap().1 == p
                && p <= bytes@.len(),
            None => r is None,
        },
{
    let mut out: Vec<Vec<T>> = Vec::new();
    let mut p: usize = pos;
    let mut i: u64 = 0;
    assert(rows_of(out@) =~= Seq::<Seq<T>>::empty());
    while i < n
        invariant
            i <= n,
            p <= bytes@.len(),
            parse_rows::<T>(bytes@, pos as int, i as nat) == Some((rows_of(out@), p as int)),
        decreases n - i,
    {
        let ghost before = rows_of(out@);
        let row: Vec<T> = match read_count(bytes, p) {
            Some((len, q)) => match read_entries::<T>(bytes, q, len) {
                Some((row, after)) => {
                    p = after;
                    row
                },
                None => {
                    proof {
                        lemma_rows_stay_none::<T>(bytes@, pos as int, (i + 1) as nat, n as nat);
                    }
                    return None;
                },
            },
            None => {
                proof {
                    lemma_rows_stay_none::<T>(bytes@, pos as int, (i + 1) as nat, n as nat);
                }
                return None;
            },
        };
        out.push(row);
        assert(rows_of(out@) =~= before.push(row@));
        i += 1;
    }
    Some((out, p))
}

fn read_layers<T: Scalar>(bytes: &[u8], pos: usize, n: u64) -> (r: Option<
    (Vec<Vec<Vec<T>>>, usize),
>)
    requires
        pos <= bytes@.len(),
    ensures
        match parse_layers::<T>(bytes@, pos as int, n as nat) {
            Some((layers, p)) => r is Some && layers_of(r.unwrap().0@) == layers && r.unwrap().1
                == p && p <= bytes@.len(),
            None => r is None,
        },
{
    let mut out: Vec<Vec<Vec<T>>> = Vec::new();
    let mut p: usize = pos;
    let mut i: u64 = 0;
    assert(layers_of(out@) =~= Seq::<Seq<Seq<T>>>::empty());
    while i < n
        invariant
            i <= n,
            p <= bytes@.len(),
            parse_layers::<T>(bytes@, pos as int, i as nat) == Some((layers_of(out@), p as int)),
        decreases n - i,
    {
        let ghost before = layers_of(out@);
        let rows: Vec<Vec<T>> = match read_count(bytes, p) {
            Some((len, q)) => match read_rows::<T>(bytes, q, len) {
                Some((rows, after)) => {
                    p = after;
                    rows
                },
                None => {
                    proof {
                        lemma_layers_stay_none::<T>(bytes@, pos as int, (i + 1) as nat, n as nat);
                    }
                    return None;
                },
            },
            None => {
                proof {
                    lemma_layers_stay_none::<T>(bytes@, pos as int, (i + 1) as nat, n as nat);
                }
                return None;
            },
        };
        out.push(rows);
        assert(layers_of(out@) =~= before.push(rows_of(rows@)));
        i += 1;
    }
    Some((out, p))
}

/// Reads the parameters that a snapshot holds.
pub fn decode<T: Scalar>(bytes: &[u8]) -> (r: Result<Vec<Vec<Vec<T>>>, Error>)
    ensures
        match decoded::<T>(bytes@) {
            Some(layers) => r is Ok && layers_of(r.unwrap()@) == layers,
            None => r == Err::<Vec<Vec<Vec<T>>>, Error>(Error::DeserializationFailure),
        },
{
    match read_count(bytes, 0) {
        Some((n, p)) => match read_layers::<T>(bytes, p, n) {
            Some((layers, q)) => if q == bytes.len() {
                Ok(layers)
            } else {
                Err(Error::DeserializationFailure)
            },
            None => Err(Error::DeserializationFailure),
        },
        None => Err(Error::DeserializationFailure),
    }
}

} // verus!
