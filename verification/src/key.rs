//! The key encoder: every cell becomes a byte string, and two cells get the
//! same byte string exactly when they are equal. A null cell equals a null
//! cell; floats are compared by their bits; the key of several cells is
//! their byte strings laid end to end.

use vstd::prelude::*;
use vstd::bytes::{
    spec_u64_to_le_bytes, spec_u64_from_le_bytes, u64_to_le_bytes, lemma_auto_spec_u64_to_from_le_bytes,
};
use vstd::utf8::{encode_utf8, encode_utf8_decode_utf8};

use crate::datatypes::{AnyValue, Cell, DataType};

verus! {

/// The first byte of the key of a cell of each logical type. No two types
/// share one, and none is the 0 of a null cell.
pub open spec fn type_tag(dtype: DataType) -> u8 {
    match dtype {
        DataType::Boolean => 1,
        DataType::UInt8 => 2,
        DataType::UInt16 => 3,
        DataType::UInt32 => 4,
        DataType::UInt64 => 5,
        DataType::Int8 => 6,
        DataType::Int16 => 7,
        DataType::Int32 => 8,
        DataType::Int64 => 9,
        DataType::Float32 => 10,
        DataType::Float64 => 11,
        DataType::Utf8 => 12,
        DataType::List => 13,
        DataType::Categorical => 14,
        DataType::Null => 15,
    }
}

/// Whether the numbers of the type are signed.
pub open spec fn is_signed(dtype: DataType) -> bool {
    dtype == DataType::Int8 || dtype == DataType::Int16 || dtype == DataType::Int32 || dtype
        == DataType::Int64
}

/// The 64 bits that stand for a number in a key: the number itself, or for
/// a signed type the number raised by 2^63.
pub open spec fn num_bits(dtype: DataType, n: int) -> u64 {
    if is_signed(dtype) {
        (n + 0x8000_0000_0000_0000) as u64
    } else {
        n as u64
    }
}

/// The key of one cell: a tag byte, then nothing for a null, one byte for a
/// truth value, eight bytes for a number, and for a text the length of its
/// UTF-8 form in eight bytes and that form.
pub open spec fn key_bytes(c: Cell) -> Seq<u8> {
    match c {
        Cell::Null => seq![0u8],
        Cell::Bool(b) => seq![1u8, if b { 1u8 } else { 0u8 }],
        Cell::Num(d, n) => seq![type_tag(d)] + spec_u64_to_le_bytes(num_bits(d, n)),
        Cell::Text(s) => seq![12u8] + spec_u64_to_le_bytes(encode_utf8(s).len() as u64) + encode_utf8(s),
    }
}

/// The key of a tuple of cells.
pub open spec fn tuple_key(cells: Seq<Cell>) -> Seq<u8>
    decreases cells.len(),
{
    if cells.len() == 0 {
        Seq::empty()
    } else {
        tuple_key(cells.drop_last()) + key_bytes(cells.last())
    }
}

/// A cell that a key can stand for: a number of its type, or a text whose
/// UTF-8 form has a length that eight bytes hold.
pub open spec fn encodable(c: Cell) -> bool {
    c.wf()
}

/// How many bytes the key of a cell has, read off its first bytes.
proof fn lemma_key_len(c: Cell)
    requires
        encodable(c),
    ensures
        key_bytes(c).len() >= 1,
        c is Null ==> key_bytes(c).len() == 1 && key_bytes(c)[0] == 0,
        c is Bool ==> key_bytes(c).len() == 2 && key_bytes(c)[0] == 1,
        c matches Cell::Num(d, n) ==> key_bytes(c).len() == 9 && key_bytes(c)[0] == type_tag(d) && key_bytes(
            c,
        ).subrange(1, 9) == spec_u64_to_le_bytes(num_bits(d, n)) && 2 <= type_tag(d) <= 14 && type_tag(d) != 12,
        c matches Cell::Text(s) ==> key_bytes(c).len() == 9 + encode_utf8(s).len() && key_bytes(c)[0] == 12
            && key_bytes(c).subrange(1, 9) == spec_u64_to_le_bytes(encode_utf8(s).len() as u64) && key_bytes(
            c,
        ).subrange(9, key_bytes(c).len() as int) == encode_utf8(s),
{
    lemma_auto_spec_u64_to_from_le_bytes();
    match c {
        Cell::Num(d, n) => {
            let bits = spec_u64_to_le_bytes(num_bits(d, n));
            assert(key_bytes(c).subrange(1, 9) =~= bits);
        },
        Cell::Text(s) => {
            let len = spec_u64_to_le_bytes(encode_utf8(s).len() as u64);
            assert(key_bytes(c).subrange(1, 9) =~= len);
            assert(key_bytes(c).subrange(9, key_bytes(c).len() as int) =~= encode_utf8(s));
        },
        _ => {},
    }
}

/// No key is the beginning of another: where two keys, each followed by
/// more bytes, give the same bytes, the cells are equal and so is what
/// follows.
pub proof fn lemma_key_prefix_free(c1: Cell, r1: Seq<u8>, c2: Cell, r2: Seq<u8>)
    requires
        encodable(c1),
        encodable(c2),
        key_bytes(c1) + r1 == key_bytes(c2) + r2,
    ensures
        c1 == c2,
        r1 == r2,
{
    lemma_auto_spec_u64_to_from_le_bytes();
    lemma_key_len(c1);
    lemma_key_len(c2);
    let k1 = key_bytes(c1);
    let k2 = key_bytes(c2);
    let x = k1 + r1;
    let y = k2 + r2;
    assert(x[0] == k1[0] && y[0] == k2[0]);
    match c1 {
        Cell::Null => {
            assert(c2 is Null);
        },
        Cell::Bool(b1) => {
            assert(c2 is Bool);
            assert(x[1] == k1[1] && y[1] == k2[1]);
        },
        Cell::Num(d1, n1) => {
            assert(c2 is Num);
            let d2 = c2->Num_0;
            let n2 = c2->Num_1;
            assert(d1 == d2);
            assert(x.subrange(1, 9) =~= k1.subrange(1, 9));
            assert(y.subrange(1, 9) =~= k2.subrange(1, 9));
            assert(spec_u64_from_le_bytes(spec_u64_to_le_bytes(num_bits(d1, n1))) == num_bits(d1, n1));
            assert(spec_u64_from_le_bytes(spec_u64_to_le_bytes(num_bits(d2, n2))) == num_bits(d2, n2));
            assert(num_bits(d1, n1) == num_bits(d2, n2));
            assert(n1 == n2);
        },
        Cell::Text(s1) => {
            assert(c2 is Text);
            let s2 = c2->Text_0;
            let l1 = encode_utf8(s1).len() as u64;
            let l2 = encode_utf8(s2).len() as u64;
            assert(x.subrange(1, 9) =~= k1.subrange(1, 9));
            assert(y.subrange(1, 9) =~= k2.subrange(1, 9));
            assert(spec_u64_from_le_bytes(spec_u64_to_le_bytes(l1)) == l1);
            assert(spec_u64_from_le_bytes(spec_u64_to_le_bytes(l2)) == l2);
            assert(l1 == l2);
            assert(x.subrange(9, k1.len() as int) =~= encode_utf8(s1));
            assert(y.subrange(9, k2.len() as int) =~= encode_utf8(s2));
            encode_utf8_decode_utf8(s1);
            encode_utf8_decode_utf8(s2);
            assert(s1 == s2);
        },
    }
    assert(k1 == k2);
    assert(r1 =~= x.subrange(k1.len() as int, x.len() as int));
    assert(r2 =~= y.subrange(k2.len() as int, y.len() as int));
}

/// Two cells have the same key exactly when they are equal.
pub proof fn lemma_key_injective(c1: Cell, c2: Cell)
    requires
        encodable(c1),
        encodable(c2),
    ensures
        key_bytes(c1) == key_bytes(c2) <==> c1 == c2,
{
    if key_bytes(c1) == key_bytes(c2) {
        assert(key_bytes(c1) + Seq::<u8>::empty() == key_bytes(c2) + Seq::<u8>::empty());
        lemma_key_prefix_free(c1, Seq::empty(), c2, Seq::empty());
    }
}

/// Two tuples of as many cells have the same key exactly when they are
/// equal, cell by cell.
pub proof fn lemma_tuple_key_injective(x: Seq<Cell>, y: Seq<Cell>)
    requires
        x.len() == y.len(),
        forall|i: int| 0 <= i < x.len() ==> encodable(#[trigger] x[i]),
        forall|i: int| 0 <= i < y.len() ==> encodable(#[trigger] y[i]),
    ensures
        tuple_key(x) == tuple_key(y) <==> x == y,
{
    if tuple_key(x) == tuple_key(y) {
        lemma_tuple_key_suffix(x, Seq::empty(), y, Seq::empty());
    }
}

proof fn lemma_tuple_key_suffix(x: Seq<Cell>, rx: Seq<u8>, y: Seq<Cell>, ry: Seq<u8>)
    requires
        x.len() == y.len(),
        forall|i: int| 0 <= i < x.len() ==> encodable(#[trigger] x[i]),
        forall|i: int| 0 <= i < y.len() ==> encodable(#[trigger] y[i]),
        tuple_key(x) + rx == tuple_key(y) + ry,
    ensures
        x == y,
        rx == ry,
    decreases x.len(),
{
    if x.len() == 0 {
        assert(x =~= y);
        assert(tuple_key(x) + rx =~= rx);
        assert(tuple_key(y) + ry =~= ry);
    } else {
        let fx = x.drop_last();
        let fy = y.drop_last();
        assert(tuple_key(x) + rx =~= tuple_key(fx) + (key_bytes(x.last()) + rx));
        assert(tuple_key(y) + ry =~= tuple_key(fy) + (key_bytes(y.last()) + ry));
        assert forall|i: int| 0 <= i < fx.len() implies encodable(#[trigger] fx[i]) by {
            assert(fx[i] == x[i]);
        }
        assert forall|i: int| 0 <= i < fy.len() implies encodable(#[trigger] fy[i]) by {
            assert(fy[i] == y[i]);
        }
        lemma_tuple_key_suffix(fx, key_bytes(x.last()) + rx, fy, key_bytes(y.last()) + ry);
        lemma_key_prefix_free(x.last(), rx, y.last(), ry);
        assert(x =~= fx.push(x.last()));
        assert(y =~= fy.push(y.last()));
    }
}

/// Appends a tag byte and the eight bytes of `bits` to a key.
fn push_num(out: &mut Vec<u8>, tag: u8, bits: u64)
    ensures
        final(out)@ == old(out)@ + (seq![tag] + spec_u64_to_le_bytes(bits)),
{
    out.push(tag);
    let mut bytes = u64_to_le_bytes(bits);
    out.append(&mut bytes);
    assert(out@ =~= old(out)@ + (seq![tag] + spec_u64_to_le_bytes(bits)));
}

/// Appends the key of a cell to the key of the cells before it.
pub fn encode_cell(v: &AnyValue, out: &mut Vec<u8>)
    ensures
        final(out)@ == old(out)@ + key_bytes(v@),
        encodable(v@),
{
    match v {
        AnyValue::Null => {
            out.push(0u8);
            assert(out@ =~= old(out)@ + key_bytes(v@));
        },
        AnyValue::Boolean(b) => {
            out.push(1u8);
            out.push(if *b { 1u8 } else { 0u8 });
            assert(out@ =~= old(out)@ + key_bytes(v@));
        },
        AnyValue::UInt8(x) => push_num(out, 2u8, *x as u64),
        AnyValue::UInt16(x) => push_num(out, 3u8, *x as u64),
        AnyValue::UInt32(x) => push_num(out, 4u8, *x as u64),
        AnyValue::UInt64(x) => push_num(out, 5u8, *x),
        AnyValue::Int8(x) => push_num(out, 6u8, ((*x as i128) + 0x8000_0000_0000_0000i128) as u64),
        AnyValue::Int16(x) => push_num(out, 7u8, ((*x as i128) + 0x8000_0000_0000_0000i128) as u64),
        AnyValue::Int32(x) => push_num(out, 8u8, ((*x as i128) + 0x8000_0000_0000_0000i128) as u64),
        AnyValue::Int64(x) => push_num(out, 9u8, ((*x as i128) + 0x8000_0000_0000_0000i128) as u64),
        AnyValue::Float32(x) => push_num(out, 10u8, *x as u64),
        AnyValue::Float64(x) => push_num(out, 11u8, *x),
        AnyValue::Categorical(x) => push_num(out, 14u8, *x as u64),
        AnyValue::Utf8(s) => {
            let bytes = s.as_str().as_bytes();
            let n = bytes.len();
            push_num(out, 12u8, n as u64);
            let ghost head = out@;
            let mut i: usize = 0;
            while i < n
                invariant
                    i <= n,
                    n == bytes@.len(),
                    out@ == head + bytes@.take(i as int),
                decreases n - i,
            {
                out.push(bytes[i]);
                assert(bytes@.take(i as int).push(bytes@[i as int]) =~= bytes@.take(i + 1));
                i += 1;
            }
            assert(bytes@.take(n as int) =~= bytes@);
            assert(bytes@ == encode_utf8(s@));
            assert(out@ =~= old(out)@ + key_bytes(v@));
        },
    }
}

} // verus!
