//! The canonical encoding can be read back in one way only.
//!
//! Every piece of the encoding is delimited: where two encodings, each
//! followed by more bytes, agree as byte strings, the encoded values agree
//! and so do the bytes that follow. From this, two blocks with the same
//! canonical bytes have the same fields, so that two different blocks can
//! have the same hash only where SHA-256 itself collides.

use crate::canonical::{
    array_of, byte_array, comma_joined, decimal, escape_byte, escape_bytes, hex_digit_byte, quoted,
};
use crate::block::BlockView;
use crate::digest::{hex_digit, hex_lower, lemma_hex_lower_len, sha256};
use crate::transaction::TransactionView;
use vstd::prelude::*;
use vstd::utf8::{
    decode_utf8, encode_utf8, encode_utf8_decode_utf8, is_ascii_chars, is_ascii_chars_encode_utf8,
};

verus! {

/// Whether `b` is one of the bytes `0` to `9`.
pub open spec fn is_digit(b: u8) -> bool {
    48 <= b <= 57
}

/// Whether `rest` cannot continue a decimal number: it is empty or begins
/// with a byte that is no digit.
pub open spec fn ends_number(rest: Seq<u8>) -> bool {
    rest.len() == 0 || !is_digit(rest[0])
}

/// The number that a string of decimal digits stands for.
pub open spec fn digits_value(digits: Seq<u8>) -> nat
    decreases digits.len(),
{
    if digits.len() == 0 {
        0
    } else {
        digits_value(digits.drop_last()) * 10 + (digits.last() - 48) as nat
    }
}

/// A common prefix can be dropped from both sides of an equation.
pub proof fn lemma_cancel_prefix(prefix: Seq<u8>, x: Seq<u8>, y: Seq<u8>)
    requires
        prefix + x == prefix + y,
    ensures
        x == y,
{
    assert(x =~= (prefix + x).subrange(prefix.len() as int, (prefix + x).len() as int));
    assert(y =~= (prefix + y).subrange(prefix.len() as int, (prefix + y).len() as int));
}

/// Two splits of one byte string at the same position are the same split.
pub proof fn lemma_split_same_length(a: Seq<u8>, x: Seq<u8>, b: Seq<u8>, y: Seq<u8>)
    requires
        a + x == b + y,
        a.len() == b.len(),
    ensures
        a == b,
        x == y,
{
    assert(a =~= (a + x).subrange(0, a.len() as int));
    assert(b =~= (b + y).subrange(0, b.len() as int));
    lemma_cancel_prefix(a, x, y);
}

/// A decimal number is a non-empty string of digits that stands for the
/// number it was made from.
pub proof fn lemma_decimal_digits(n: nat)
    ensures
        decimal(n).len() >= 1,
        forall|i: int| 0 <= i < decimal(n).len() ==> is_digit(#[trigger] decimal(n)[i]),
        digits_value(decimal(n)) == n,
    decreases n,
{
    if n < 10 {
        let d = decimal(n);
        assert(d.drop_last() =~= Seq::<u8>::empty());
        assert(digits_value(d.drop_last()) == 0);
    } else {
        lemma_decimal_digits(n / 10);
        let d = decimal(n);
        assert(d.drop_last() =~= decimal(n / 10));
    }
}

/// A decimal number ends where the digits end: if two numbers, each
/// followed by bytes that cannot continue a number, give the same bytes,
/// they are the same number followed by the same bytes.
pub proof fn lemma_decimal_delimited(a: nat, b: nat, r: Seq<u8>, s: Seq<u8>)
    requires
        decimal(a) + r == decimal(b) + s,
        ends_number(r),
        ends_number(s),
    ensures
        a == b,
        r == s,
{
    let da = decimal(a);
    let db = decimal(b);
    lemma_decimal_digits(a);
    lemma_decimal_digits(b);
    assert((da + r).len() == (db + s).len());
    if da.len() < db.len() {
        assert(r[0] == (da + r)[da.len() as int]);
        assert((db + s)[da.len() as int] == db[da.len() as int]);
        assert(false);
    }
    if db.len() < da.len() {
        assert(s[0] == (db + s)[db.len() as int]);
        assert((da + r)[db.len() as int] == da[db.len() as int]);
        assert(false);
    }
    lemma_split_same_length(da, r, db, s);
}

/// The escapes of a concatenation are the escapes of its parts.
pub proof fn lemma_escape_bytes_concat(a: Seq<u8>, b: Seq<u8>)
    ensures
        escape_bytes(a + b) == escape_bytes(a) + escape_bytes(b),
    decreases b.len(),
{
    if b.len() == 0 {
        assert(a + b =~= a);
        assert(escape_bytes(a) + escape_bytes(b) =~= escape_bytes(a));
    } else {
        lemma_escape_bytes_concat(a, b.drop_last());
        assert((a + b).drop_last() =~= a + b.drop_last());
        assert((a + b).last() == b.last());
        assert(escape_bytes(a + b) =~= escape_bytes(a) + escape_bytes(b));
    }
}

/// The escapes of a non-empty byte string begin with the escape of its
/// first byte.
pub proof fn lemma_escape_bytes_first(bytes: Seq<u8>)
    requires
        bytes.len() > 0,
    ensures
        escape_bytes(bytes) == escape_byte(bytes[0]) + escape_bytes(bytes.drop_first()),
{
    let head = seq![bytes[0]];
    assert(bytes =~= head + bytes.drop_first());
    lemma_escape_bytes_concat(head, bytes.drop_first());
    assert(head.drop_last() =~= Seq::<u8>::empty());
    assert(escape_bytes(head.drop_last()) =~= Seq::<u8>::empty());
    assert(head.last() == bytes[0]);
    assert(escape_bytes(head) =~= escape_byte(bytes[0]));
}

/// An escape never begins with a quote, and is never empty.
pub proof fn lemma_escape_byte_start(b: u8)
    ensures
        escape_byte(b).len() >= 1,
        escape_byte(b)[0] != 0x22,
{
}

/// The escapes form a prefix code: if the escapes of two bytes, each
/// followed by more bytes, give the same bytes, the two bytes are the same
/// and so is what follows.
pub proof fn lemma_escape_byte_delimited(x: u8, y: u8, r: Seq<u8>, s: Seq<u8>)
    requires
        escape_byte(x) + r == escape_byte(y) + s,
    ensures
        x == y,
        r == s,
{
    let ex = escape_byte(x);
    let ey = escape_byte(y);
    let left = ex + r;
    let right = ey + s;
    assert(left[0] == ex[0]);
    assert(right[0] == ey[0]);
    if ex[0] == 0x5c {
        assert(ey[0] == 0x5c);
        assert(ex.len() >= 2 && ey.len() >= 2);
        assert(left[1] == ex[1]);
        assert(right[1] == ey[1]);
        if ex[1] == 0x75 {
            assert(ex.len() == 6 && ey.len() == 6);
            assert(left[4] == ex[4] && right[4] == ey[4]);
            assert(left[5] == ex[5] && right[5] == ey[5]);
            assert(hex_digit_byte(x / 16) == hex_digit_byte(y / 16));
            assert(hex_digit_byte(x % 16) == hex_digit_byte(y % 16));
            assert(x / 16 == y / 16);
            assert(x % 16 == y % 16);
        }
    }
    assert(x == y);
    lemma_cancel_prefix(ex, r, s);
}

/// Escaped text ends at the first quote that is no part of an escape: if
/// two escaped byte strings, each followed by a quote and more bytes, give
/// the same bytes, they escape the same bytes and the same bytes follow.
pub proof fn lemma_escaped_delimited(u: Seq<u8>, v: Seq<u8>, r: Seq<u8>, s: Seq<u8>)
    requires
        escape_bytes(u) + seq![0x22u8] + r == escape_bytes(v) + seq![0x22u8] + s,
    ensures
        u == v,
        r == s,
    decreases u.len(),
{
    let quote = seq![0x22u8];
    let left = escape_bytes(u) + quote + r;
    let right = escape_bytes(v) + quote + s;
    if u.len() == 0 {
        assert(left[0] == 0x22);
        if v.len() > 0 {
            lemma_escape_bytes_first(v);
            lemma_escape_byte_start(v[0]);
            assert(right[0] == escape_byte(v[0])[0]);
            assert(false);
        }
        assert(left =~= quote + r);
        assert(right =~= quote + s);
        lemma_cancel_prefix(quote, r, s);
        assert(u =~= v);
    } else if v.len() == 0 {
        assert(right[0] == 0x22);
        lemma_escape_bytes_first(u);
        lemma_escape_byte_start(u[0]);
        assert(left[0] == escape_byte(u[0])[0]);
        assert(false);
    } else {
        lemma_escape_bytes_first(u);
        lemma_escape_bytes_first(v);
        let rest_u = escape_bytes(u.drop_first()) + quote + r;
        let rest_v = escape_bytes(v.drop_first()) + quote + s;
        assert(left =~= escape_byte(u[0]) + rest_u);
        assert(right =~= escape_byte(v[0]) + rest_v);
        lemma_escape_byte_delimited(u[0], v[0], rest_u, rest_v);
        lemma_escaped_delimited(u.drop_first(), v.drop_first(), r, s);
        assert(u =~= seq![u[0]] + u.drop_first());
        assert(v =~= seq![v[0]] + v.drop_first());
    }
}

/// Text is encoded in one way only.
pub proof fn lemma_utf8_injective(a: Seq<char>, b: Seq<char>)
    requires
        encode_utf8(a) == encode_utf8(b),
    ensures
        a == b,
{
    encode_utf8_decode_utf8(a);
    encode_utf8_decode_utf8(b);
    assert(decode_utf8(encode_utf8(a)) == a);
    assert(decode_utf8(encode_utf8(b)) == b);
}

/// A quoted string is delimited by its closing quote: if two quoted
/// strings, each followed by more bytes, give the same bytes, they quote
/// the same text and the same bytes follow.
pub proof fn lemma_quoted_delimited(a: Seq<char>, b: Seq<char>, r: Seq<u8>, s: Seq<u8>)
    requires
        quoted(a) + r == quoted(b) + s,
    ensures
        a == b,
        r == s,
{
    let quote = seq![0x22u8];
    let inner_a = escape_bytes(encode_utf8(a)) + quote + r;
    let inner_b = escape_bytes(encode_utf8(b)) + quote + s;
    assert(quoted(a) + r =~= quote + inner_a);
    assert(quoted(b) + s =~= quote + inner_b);
    lemma_cancel_prefix(quote, inner_a, inner_b);
    lemma_escaped_delimited(encode_utf8(a), encode_utf8(b), r, s);
    lemma_utf8_injective(a, b);
}

/// The decimal numbers of a byte string, one per byte.
pub open spec fn byte_items(bytes: Seq<u8>) -> Seq<Seq<u8>> {
    bytes.map_values(|b: u8| decimal(b as nat))
}

/// Joining two or more parts starts with the first part, a comma, and the
/// other parts joined.
pub proof fn lemma_comma_joined_first(parts: Seq<Seq<u8>>)
    requires
        parts.len() >= 2,
    ensures
        comma_joined(parts) == parts[0] + seq![0x2cu8] + comma_joined(parts.drop_first()),
    decreases parts.len(),
{
    let comma = seq![0x2cu8];
    let tail = parts.drop_first();
    if parts.len() == 2 {
        assert(parts.drop_last() =~= seq![parts[0]]);
        assert(tail =~= seq![parts[1]]);
        assert(comma_joined(parts.drop_last()) == parts[0]);
        assert(comma_joined(tail) == parts[1]);
    } else {
        lemma_comma_joined_first(parts.drop_last());
        assert(parts.drop_last().drop_first() =~= tail.drop_last());
        assert(tail.last() == parts.last());
        assert(comma_joined(parts) =~= parts[0] + comma + comma_joined(tail));
    }
}

/// What follows the first element of a non-empty array and its closing
/// bracket: the bracket, or a comma and the other elements.
pub open spec fn after_first(parts: Seq<Seq<u8>>, rest: Seq<u8>) -> Seq<u8> {
    if parts.len() == 1 {
        seq![0x5du8] + rest
    } else {
        seq![0x2cu8] + (comma_joined(parts.drop_first()) + seq![0x5du8] + rest)
    }
}

/// The elements of a non-empty array, its closing bracket and what follows
/// begin with the first element.
pub proof fn lemma_joined_split(parts: Seq<Seq<u8>>, rest: Seq<u8>)
    requires
        parts.len() >= 1,
    ensures
        comma_joined(parts) + seq![0x5du8] + rest == parts[0] + after_first(parts, rest),
        after_first(parts, rest).len() > 0,
        after_first(parts, rest)[0] == 0x2c || after_first(parts, rest)[0] == 0x5d,
        parts.len() == 1 <==> after_first(parts, rest)[0] == 0x5d,
{
    if parts.len() == 1 {
        assert(comma_joined(parts) + seq![0x5du8] + rest =~= parts[0] + after_first(parts, rest));
    } else {
        lemma_comma_joined_first(parts);
        assert(comma_joined(parts) + seq![0x5du8] + rest =~= parts[0] + after_first(parts, rest));
    }
}

/// The numbers of a byte array end at the closing bracket: if the numbers
/// of two byte strings, each followed by `]` and more bytes, give the same
/// bytes, the byte strings are the same and the same bytes follow.
pub proof fn lemma_byte_items_delimited(x: Seq<u8>, y: Seq<u8>, r: Seq<u8>, s: Seq<u8>)
    requires
        comma_joined(byte_items(x)) + seq![0x5du8] + r == comma_joined(byte_items(y)) + seq![
            0x5du8,
        ] + s,
    ensures
        x == y,
        r == s,
    decreases x.len(),
{
    let close = seq![0x5du8];
    let px = byte_items(x);
    let py = byte_items(y);
    let left = comma_joined(px) + close + r;
    let right = comma_joined(py) + close + s;
    if x.len() == 0 || y.len() == 0 {
        if x.len() > 0 {
            lemma_joined_split(px, r);
            lemma_decimal_digits(x[0] as nat);
            assert(left[0] == px[0][0]);
            assert(right[0] == 0x5d);
            assert(false);
        }
        if y.len() > 0 {
            lemma_joined_split(py, s);
            lemma_decimal_digits(y[0] as nat);
            assert(right[0] == py[0][0]);
            assert(left[0] == 0x5d);
            assert(false);
        }
        assert(left =~= close + r);
        assert(right =~= close + s);
        lemma_cancel_prefix(close, r, s);
        assert(x =~= y);
    } else {
        lemma_joined_split(px, r);
        lemma_joined_split(py, s);
        let ax = after_first(px, r);
        let ay = after_first(py, s);
        lemma_decimal_delimited(x[0] as nat, y[0] as nat, ax, ay);
        assert(ax[0] == ay[0]);
        if x.len() == 1 {
            assert(y.len() == 1);
            lemma_cancel_prefix(close, r, s);
        } else {
            assert(y.len() > 1);
            let comma = seq![0x2cu8];
            assert(px.drop_first() =~= byte_items(x.drop_first()));
            assert(py.drop_first() =~= byte_items(y.drop_first()));
            lemma_cancel_prefix(
                comma,
                comma_joined(px.drop_first()) + close + r,
                comma_joined(py.drop_first()) + close + s,
            );
            lemma_byte_items_delimited(x.drop_first(), y.drop_first(), r, s);
        }
        assert(x =~= seq![x[0]] + x.drop_first());
        assert(y =~= seq![y[0]] + y.drop_first());
    }
}

/// A byte array is delimited by its closing bracket: if two byte arrays,
/// each followed by more bytes, give the same bytes, they hold the same
/// bytes and the same bytes follow.
pub proof fn lemma_byte_array_delimited(x: Seq<u8>, y: Seq<u8>, r: Seq<u8>, s: Seq<u8>)
    requires
        byte_array(x) + r == byte_array(y) + s,
    ensures
        x == y,
        r == s,
{
    let open = seq![0x5bu8];
    let inner_x = comma_joined(byte_items(x)) + seq![0x5du8] + r;
    let inner_y = comma_joined(byte_items(y)) + seq![0x5du8] + s;
    assert(byte_array(x) + r =~= open + inner_x);
    assert(byte_array(y) + s =~= open + inner_y);
    lemma_cancel_prefix(open, inner_x, inner_y);
    lemma_byte_items_delimited(x, y, r, s);
}

/// Concatenation may be grouped either way.
pub proof fn lemma_group(a: Seq<u8>, b: Seq<u8>, c: Seq<u8>)
    ensures
        (a + b) + c == a + (b + c),
{
    assert((a + b) + c =~= a + (b + c));
}

/// An object of five fields, written as six keys with a value after each
/// of the first five, followed by `rest`: grouped from the left, as the
/// encodings are defined, and from the right, as they are read.
pub proof fn lemma_object_groups(
    k1: Seq<u8>,
    v1: Seq<u8>,
    k2: Seq<u8>,
    v2: Seq<u8>,
    k3: Seq<u8>,
    v3: Seq<u8>,
    k4: Seq<u8>,
    v4: Seq<u8>,
    k5: Seq<u8>,
    v5: Seq<u8>,
    k6: Seq<u8>,
    rest: Seq<u8>,
)
    ensures
        k1 + v1 + k2 + v2 + k3 + v3 + k4 + v4 + k5 + v5 + k6 + rest == k1 + (v1 + (k2 + (v2 + (k3
            + (v3 + (k4 + (v4 + (k5 + (v5 + (k6 + rest)))))))))),
{
    let t10 = k6 + rest;
    let t9 = v5 + t10;
    let t8 = k5 + t9;
    let t7 = v4 + t8;
    let t6 = k4 + t7;
    let t5 = v3 + t6;
    let t4 = k3 + t5;
    let t3 = v2 + t4;
    let t2 = k2 + t3;
    let t1 = v1 + t2;
    let c1 = k1 + v1;
    let c2 = c1 + k2;
    let c3 = c2 + v2;
    let c4 = c3 + k3;
    let c5 = c4 + v3;
    let c6 = c5 + k4;
    let c7 = c6 + v4;
    let c8 = c7 + k5;
    let c9 = c8 + v5;
    let c10 = c9 + k6;
    lemma_group(c9, k6, rest);
    lemma_group(c8, v5, t10);
    lemma_group(c7, k5, t9);
    lemma_group(c6, v4, t8);
    lemma_group(c5, k4, t7);
    lemma_group(c4, v3, t6);
    lemma_group(c3, k3, t5);
    lemma_group(c2, v2, t4);
    lemma_group(c1, k2, t3);
    lemma_group(k1, v1, t2);
}

/// A transaction's encoding is delimited: if the encodings of two
/// transactions, each followed by more bytes, give the same bytes, the
/// transactions have the same fields and the same bytes follow.
pub proof fn lemma_transaction_delimited(
    a: TransactionView,
    b: TransactionView,
    r: Seq<u8>,
    s: Seq<u8>,
)
    requires
        a.canonical() + r == b.canonical() + s,
    ensures
        a == b,
        r == s,
{
    let k1 = encode_utf8("{\"doctor_id\":"@);
    let k2 = encode_utf8(",\"patient_id\":"@);
    let k3 = encode_utf8(",\"drug\":"@);
    let k4 = encode_utf8(",\"signature\":"@);
    let k5 = encode_utf8(",\"pubkey\":"@);
    let k6 = encode_utf8("}"@);

    let a5 = k6 + r;
    let a4 = k5 + (byte_array(a.pubkey) + a5);
    let a3 = k4 + (byte_array(a.signature) + a4);
    let a2 = k3 + (quoted(a.drug) + a3);
    let a1 = k2 + (quoted(a.patient_id) + a2);
    let b5 = k6 + s;
    let b4 = k5 + (byte_array(b.pubkey) + b5);
    let b3 = k4 + (byte_array(b.signature) + b4);
    let b2 = k3 + (quoted(b.drug) + b3);
    let b1 = k2 + (quoted(b.patient_id) + b2);
    lemma_object_groups(
        k1,
        quoted(a.doctor_id),
        k2,
        quoted(a.patient_id),
        k3,
        quoted(a.drug),
        k4,
        byte_array(a.signature),
        k5,
        byte_array(a.pubkey),
        k6,
        r,
    );
    lemma_object_groups(
        k1,
        quoted(b.doctor_id),
        k2,
        quoted(b.patient_id),
        k3,
        quoted(b.drug),
        k4,
        byte_array(b.signature),
        k5,
        byte_array(b.pubkey),
        k6,
        s,
    );

    lemma_cancel_prefix(k1, quoted(a.doctor_id) + a1, quoted(b.doctor_id) + b1);
    lemma_quoted_delimited(a.doctor_id, b.doctor_id, a1, b1);
    lemma_cancel_prefix(k2, quoted(a.patient_id) + a2, quoted(b.patient_id) + b2);
    lemma_quoted_delimited(a.patient_id, b.patient_id, a2, b2);
    lemma_cancel_prefix(k3, quoted(a.drug) + a3, quoted(b.drug) + b3);
    lemma_quoted_delimited(a.drug, b.drug, a3, b3);
    lemma_cancel_prefix(k4, byte_array(a.signature) + a4, byte_array(b.signature) + b4);
    lemma_byte_array_delimited(a.signature, b.signature, a4, b4);
    lemma_cancel_prefix(k5, byte_array(a.pubkey) + a5, byte_array(b.pubkey) + b5);
    lemma_byte_array_delimited(a.pubkey, b.pubkey, a5, b5);
    lemma_cancel_prefix(k6, r, s);
}

/// A transaction's encoding begins with an opening brace.
pub proof fn lemma_transaction_start(tx: TransactionView)
    ensures
        tx.canonical().len() > 0,
        tx.canonical()[0] == 0x7b,
{
    let text = "{\"doctor_id\":"@;
    reveal_strlit("{\"doctor_id\":");
    assert(is_ascii_chars(text));
    is_ascii_chars_encode_utf8(text);
    assert(encode_utf8(text)[0] == text[0] as u8);
    assert(tx.canonical()[0] == encode_utf8(text)[0]);
}

/// The encodings of a sequence of transactions, one per transaction.
pub open spec fn transaction_items(transactions: Seq<TransactionView>) -> Seq<Seq<u8>> {
    transactions.map_values(|tx: TransactionView| tx.canonical())
}

/// The elements of a transaction array end at the closing bracket: if the
/// elements of two transaction sequences, each followed by `]` and more
/// bytes, give the same bytes, the sequences are the same and the same
/// bytes follow.
pub proof fn lemma_transaction_items_delimited(
    x: Seq<TransactionView>,
    y: Seq<TransactionView>,
    r: Seq<u8>,
    s: Seq<u8>,
)
    requires
        comma_joined(transaction_items(x)) + seq![0x5du8] + r == comma_joined(
            transaction_items(y),
        ) + seq![0x5du8] + s,
    ensures
        x == y,
        r == s,
    decreases x.len(),
{
    let close = seq![0x5du8];
    let px = transaction_items(x);
    let py = transaction_items(y);
    let left = comma_joined(px) + close + r;
    let right = comma_joined(py) + close + s;
    if x.len() == 0 || y.len() == 0 {
        if x.len() > 0 {
            lemma_joined_split(px, r);
            lemma_transaction_start(x[0]);
            assert(left[0] == px[0][0]);
            assert(right[0] == 0x5d);
            assert(false);
        }
        if y.len() > 0 {
            lemma_joined_split(py, s);
            lemma_transaction_start(y[0]);
            assert(right[0] == py[0][0]);
            assert(left[0] == 0x5d);
            assert(false);
        }
        assert(left =~= close + r);
        assert(right =~= close + s);
        lemma_cancel_prefix(close, r, s);
        assert(x =~= y);
    } else {
        lemma_joined_split(px, r);
        lemma_joined_split(py, s);
        let ax = after_first(px, r);
        let ay = after_first(py, s);
        lemma_transaction_delimited(x[0], y[0], ax, ay);
        assert(ax[0] == ay[0]);
        if x.len() == 1 {
            assert(y.len() == 1);
            lemma_cancel_prefix(close, r, s);
        } else {
            assert(y.len() > 1);
            let comma = seq![0x2cu8];
            assert(px.drop_first() =~= transaction_items(x.drop_first()));
            assert(py.drop_first() =~= transaction_items(y.drop_first()));
            lemma_cancel_prefix(
                comma,
                comma_joined(px.drop_first()) + close + r,
                comma_joined(py.drop_first()) + close + s,
            );
            lemma_transaction_items_delimited(x.drop_first(), y.drop_first(), r, s);
        }
        assert(x =~= seq![x[0]] + x.drop_first());
        assert(y =~= seq![y[0]] + y.drop_first());
    }
}

/// A transaction array is delimited by its closing bracket: if two
/// transaction arrays, each followed by more bytes, give the same bytes,
/// they hold the same transactions and the same bytes follow.
pub proof fn lemma_transaction_array_delimited(
    x: Seq<TransactionView>,
    y: Seq<TransactionView>,
    r: Seq<u8>,
    s: Seq<u8>,
)
    requires
        array_of(transaction_items(x)) + r == array_of(transaction_items(y)) + s,
    ensures
        x == y,
        r == s,
{
    let open = seq![0x5bu8];
    let inner_x = comma_joined(transaction_items(x)) + seq![0x5du8] + r;
    let inner_y = comma_joined(transaction_items(y)) + seq![0x5du8] + s;
    assert(array_of(transaction_items(x)) + r =~= open + inner_x);
    assert(array_of(transaction_items(y)) + s =~= open + inner_y);
    lemma_cancel_prefix(open, inner_x, inner_y);
    lemma_transaction_items_delimited(x, y, r, s);
}

/// The text of a key that follows a number begins with a byte that is no
/// digit.
proof fn lemma_keys_end_numbers()
    ensures
        encode_utf8(",\"prev_hash\":"@).len() > 0,
        encode_utf8(",\"prev_hash\":"@)[0] == 0x2c,
        encode_utf8(",\"transactions\":"@).len() > 0,
        encode_utf8(",\"transactions\":"@)[0] == 0x2c,
        encode_utf8("}"@).len() > 0,
        encode_utf8("}"@)[0] == 0x7d,
{
    reveal_strlit(",\"prev_hash\":");
    reveal_strlit(",\"transactions\":");
    reveal_strlit("}");
    let a = ",\"prev_hash\":"@;
    let b = ",\"transactions\":"@;
    let c = "}"@;
    assert(is_ascii_chars(a));
    assert(is_ascii_chars(b));
    assert(is_ascii_chars(c));
    is_ascii_chars_encode_utf8(a);
    is_ascii_chars_encode_utf8(b);
    is_ascii_chars_encode_utf8(c);
    assert(encode_utf8(a)[0] == a[0] as u8);
    assert(encode_utf8(b)[0] == b[0] as u8);
    assert(encode_utf8(c)[0] == c[0] as u8);
}

/// Blocks with the same canonical bytes have the same fields: the encoding
/// loses nothing, and a change to any field of a block changes the bytes
/// that are hashed.
pub proof fn lemma_canonical_injective(a: BlockView, b: BlockView)
    requires
        a.canonical() == b.canonical(),
    ensures
        a == b,
{
    let k1 = encode_utf8("{\"index\":"@);
    let k2 = encode_utf8(",\"prev_hash\":"@);
    let k3 = encode_utf8(",\"timestamp\":"@);
    let k4 = encode_utf8(",\"transactions\":"@);
    let k5 = encode_utf8(",\"nonce\":"@);
    let k6 = encode_utf8("}"@);
    lemma_keys_end_numbers();

    let none = Seq::<u8>::empty();
    let end = k6 + none;
    let ta = array_of(transaction_items(a.transactions));
    let tb = array_of(transaction_items(b.transactions));
    let a5 = k5 + (decimal(a.nonce as nat) + end);
    let a3 = k4 + (ta + a5);
    let a2 = k3 + (decimal(a.timestamp as nat) + a3);
    let a1 = k2 + (quoted(a.prev_hash) + a2);
    let b5 = k5 + (decimal(b.nonce as nat) + end);
    let b3 = k4 + (tb + b5);
    let b2 = k3 + (decimal(b.timestamp as nat) + b3);
    let b1 = k2 + (quoted(b.prev_hash) + b2);
    lemma_object_groups(
        k1,
        decimal(a.index as nat),
        k2,
        quoted(a.prev_hash),
        k3,
        decimal(a.timestamp as nat),
        k4,
        ta,
        k5,
        decimal(a.nonce as nat),
        k6,
        none,
    );
    lemma_object_groups(
        k1,
        decimal(b.index as nat),
        k2,
        quoted(b.prev_hash),
        k3,
        decimal(b.timestamp as nat),
        k4,
        tb,
        k5,
        decimal(b.nonce as nat),
        k6,
        none,
    );
    assert(a.canonical() + none == a.canonical()) by {
        assert(a.canonical() + none =~= a.canonical());
    }
    assert(b.canonical() + none == b.canonical()) by {
        assert(b.canonical() + none =~= b.canonical());
    }

    lemma_cancel_prefix(k1, decimal(a.index as nat) + a1, decimal(b.index as nat) + b1);
    assert(a1[0] == k2[0] && b1[0] == k2[0]);
    lemma_decimal_delimited(a.index as nat, b.index as nat, a1, b1);
    lemma_cancel_prefix(k2, quoted(a.prev_hash) + a2, quoted(b.prev_hash) + b2);
    lemma_quoted_delimited(a.prev_hash, b.prev_hash, a2, b2);
    lemma_cancel_prefix(k3, decimal(a.timestamp as nat) + a3, decimal(b.timestamp as nat) + b3);
    assert(a3[0] == k4[0] && b3[0] == k4[0]);
    lemma_decimal_delimited(a.timestamp as nat, b.timestamp as nat, a3, b3);
    lemma_cancel_prefix(k4, ta + a5, tb + b5);
    lemma_transaction_array_delimited(a.transactions, b.transactions, a5, b5);
    lemma_cancel_prefix(k5, decimal(a.nonce as nat) + end, decimal(b.nonce as nat) + end);
    assert(end[0] == k6[0]);
    lemma_decimal_delimited(a.nonce as nat, b.nonce as nat, end, end);
}

/// Hexadecimal text is read back in one way only.
pub proof fn lemma_hex_lower_injective(a: Seq<u8>, b: Seq<u8>)
    requires
        hex_lower(a) == hex_lower(b),
    ensures
        a == b,
    decreases a.len(),
{
    lemma_hex_lower_len(a);
    lemma_hex_lower_len(b);
    if a.len() > 0 {
        let ha = hex_lower(a.drop_last());
        let hb = hex_lower(b.drop_last());
        let la = hex_lower(a);
        let lb = hex_lower(b);
        lemma_hex_lower_len(a.drop_last());
        lemma_hex_lower_len(b.drop_last());
        assert(la[la.len() - 1] == hex_digit(a.last() % 16));
        assert(lb[lb.len() - 1] == hex_digit(b.last() % 16));
        assert(la[la.len() - 2] == hex_digit(a.last() / 16));
        assert(lb[lb.len() - 2] == hex_digit(b.last() / 16));
        assert(a.last() % 16 == b.last() % 16);
        assert(a.last() / 16 == b.last() / 16);
        assert(a.last() == b.last());
        assert(ha =~= la.subrange(0, la.len() - 2));
        assert(hb =~= lb.subrange(0, lb.len() - 2));
        lemma_hex_lower_injective(a.drop_last(), b.drop_last());
        assert(a =~= a.drop_last().push(a.last()));
        assert(b =~= b.drop_last().push(b.last()));
    } else {
        assert(a =~= b);
    }
}

/// The hash tells blocks apart as far as SHA-256 does. Two blocks that
/// differ in any field are hashed over different bytes, and their hashes
/// are equal exactly when SHA-256 gives those bytes the same digest.
pub proof fn lemma_hash_tells_blocks_apart(a: BlockView, b: BlockView)
    ensures
        a != b ==> a.canonical() != b.canonical(),
        a.hash() == b.hash() <==> sha256(a.canonical()) == sha256(b.canonical()),
{
    if a.canonical() == b.canonical() {
        lemma_canonical_injective(a, b);
    }
    if a.hash() == b.hash() {
        lemma_hex_lower_injective(sha256(a.canonical()), sha256(b.canonical()));
    }
}

} // verus!
