//! The canonical byte encoding that block hashes are computed over.
//!
//! The encoding is compact JSON with a fixed field order: unsigned numbers
//! in decimal, text as quoted UTF-8 with the mandatory escapes only, and
//! byte strings as arrays of decimal numbers.

use vstd::prelude::*;
use vstd::utf8::encode_utf8;

verus! {

/// Decimal digits of `n`, most significant first, without leading zeros.
pub open spec fn decimal(n: nat) -> Seq<u8>
    decreases n,
{
    if n < 10 {
        seq![(48 + n) as u8]
    } else {
        decimal(n / 10).push((48 + n % 10) as u8)
    }
}

/// The lowercase hexadecimal digit for a value below sixteen, as a byte.
pub open spec fn hex_digit_byte(nibble: u8) -> u8 {
    if nibble < 10 {
        (48 + nibble) as u8
    } else {
        (87 + nibble) as u8
    }
}

/// What one byte of UTF-8 text becomes inside a quoted string: the quote,
/// the backslash and the control characters are escaped, every other byte
/// stands for itself.
pub open spec fn escape_byte(b: u8) -> Seq<u8> {
    if b == 0x22 {
        seq![0x5cu8, 0x22u8]
    } else if b == 0x5c {
        seq![0x5cu8, 0x5cu8]
    } else if b == 0x08 {
        seq![0x5cu8, 0x62u8]
    } else if b == 0x09 {
        seq![0x5cu8, 0x74u8]
    } else if b == 0x0a {
        seq![0x5cu8, 0x6eu8]
    } else if b == 0x0c {
        seq![0x5cu8, 0x66u8]
    } else if b == 0x0d {
        seq![0x5cu8, 0x72u8]
    } else if b < 0x20 {
        seq![0x5cu8, 0x75u8, 0x30u8, 0x30u8, hex_digit_byte(b / 16), hex_digit_byte(b % 16)]
    } else {
        seq![b]
    }
}

/// The escapes of every byte of `bytes`, in order.
pub open spec fn escape_bytes(bytes: Seq<u8>) -> Seq<u8>
    decreases bytes.len(),
{
    if bytes.len() == 0 {
        Seq::empty()
    } else {
        escape_bytes(bytes.drop_last()) + escape_byte(bytes.last())
    }
}

/// A quoted string: `"`, the escaped UTF-8 bytes of `text`, `"`.
pub open spec fn quoted(text: Seq<char>) -> Seq<u8> {
    seq![0x22u8] + escape_bytes(encode_utf8(text)) + seq![0x22u8]
}

/// The parts in order with one comma between neighbours.
pub open spec fn comma_joined(parts: Seq<Seq<u8>>) -> Seq<u8>
    decreases parts.len(),
{
    if parts.len() == 0 {
        Seq::empty()
    } else if parts.len() == 1 {
        parts[0]
    } else {
        comma_joined(parts.drop_last()) + seq![0x2cu8] + parts.last()
    }
}

/// An array: `[`, the comma-joined elements, `]`.
pub open spec fn array_of(elements: Seq<Seq<u8>>) -> Seq<u8> {
    seq![0x5bu8] + comma_joined(elements) + seq![0x5du8]
}

/// A byte string as an array of decimal numbers.
pub open spec fn byte_array(bytes: Seq<u8>) -> Seq<u8> {
    array_of(bytes.map_values(|b: u8| decimal(b as nat)))
}

/// What `comma_joined` adds for the element at position `i`: the element,
/// with a comma in front unless it is the first.
pub open spec fn joined_item(i: int, item: Seq<u8>) -> Seq<u8> {
    if i == 0 {
        item
    } else {
        seq![0x2cu8] + item
    }
}

/// Joining one more element appends its `joined_item`.
pub proof fn lemma_comma_joined_push(parts: Seq<Seq<u8>>, item: Seq<u8>)
    ensures
        comma_joined(parts.push(item)) == comma_joined(parts) + joined_item(
            parts.len() as int,
            item,
        ),
{
    let all = parts.push(item);
    assert(all.drop_last() == parts);
    assert(all.last() == item);
    if parts.len() == 0 {
        assert(comma_joined(all) == item);
        assert(comma_joined(parts) + item == item);
    } else {
        assert(comma_joined(all) == comma_joined(parts) + seq![0x2cu8] + item);
        assert(comma_joined(parts) + seq![0x2cu8] + item == comma_joined(parts) + (seq![0x2cu8]
            + item));
    }
}

/// Appends `bytes` to `out`.
pub fn push_all(out: &mut Vec<u8>, bytes: &[u8])
    ensures
        final(out)@ == old(out)@ + bytes@,
{
    let mut i: usize = 0;
    while i < bytes.len()
        invariant
            i <= bytes.len(),
            out@ == old(out)@ + bytes@.take(i as int),
        decreases bytes.len() - i,
    {
        out.push(bytes[i]);
        proof {
            assert(bytes@.take(i + 1) == bytes@.take(i as int).push(bytes@[i as int]));
        }
        i += 1;
    }
    proof {
        assert(bytes@.take(bytes.len() as int) == bytes@);
    }
}

/// Appends the UTF-8 bytes of `text` to `out`, unescaped.
pub fn push_text(out: &mut Vec<u8>, text: &str)
    ensures
        final(out)@ == old(out)@ + encode_utf8(text@),
{
    push_all(out, text.as_bytes());
}

/// Appends the decimal digits of `n` to `out`.
pub fn push_decimal(out: &mut Vec<u8>, n: u64)
    ensures
        final(out)@ == old(out)@ + decimal(n as nat),
    decreases n,
{
    if n >= 10 {
        push_decimal(out, n / 10);
    }
    let digit: u8 = 48 + (n % 10) as u8;
    out.push(digit);
    proof {
        if n >= 10 {
            assert(old(out)@ + decimal(n as nat / 10).push(digit) == (old(out)@ + decimal(
                n as nat / 10,
            )).push(digit));
        } else {
            assert(old(out)@ + seq![digit] == old(out)@.push(digit));
        }
    }
}

fn hex_digit_byte_of(nibble: u8) -> (digit: u8)
    requires
        nibble < 16,
    ensures
        digit == hex_digit_byte(nibble),
{
    if nibble < 10 {
        48 + nibble
    } else {
        87 + nibble
    }
}

/// Appends the escape of one byte of text to `out`.
pub fn push_escaped_byte(out: &mut Vec<u8>, b: u8)
    ensures
        final(out)@ == old(out)@ + escape_byte(b),
{
    if b == 0x22 || b == 0x5c {
        out.push(0x5c);
        out.push(b);
    } else if b == 0x08 {
        out.push(0x5c);
        out.push(0x62);
    } else if b == 0x09 {
        out.push(0x5c);
        out.push(0x74);
    } else if b == 0x0a {
        out.push(0x5c);
        out.push(0x6e);
    } else if b == 0x0c {
        out.push(0x5c);
        out.push(0x66);
    } else if b == 0x0d {
        out.push(0x5c);
        out.push(0x72);
    } else if b < 0x20 {
        out.push(0x5c);
        out.push(0x75);
        out.push(0x30);
        out.push(0x30);
        out.push(hex_digit_byte_of(b / 16));
        out.push(hex_digit_byte_of(b % 16));
    } else {
        out.push(b);
    }
    proof {
        assert(out@ =~= old(out)@ + escape_byte(b));
    }
}

/// Appends `text` to `out` as a quoted string.
pub fn push_quoted(out: &mut Vec<u8>, text: &str)
    ensures
        final(out)@ == old(out)@ + quoted(text@),
{
    let bytes = text.as_bytes();
    out.push(0x22);
    let mut i: usize = 0;
    while i < bytes.len()
        invariant
            i <= bytes.len(),
            out@ == old(out)@ + seq![0x22u8] + escape_bytes(bytes@.take(i as int)),
        decreases bytes.len() - i,
    {
        let ghost before = out@;
        push_escaped_byte(out, bytes[i]);
        proof {
            let next = bytes@.take(i + 1);
            assert(next.drop_last() == bytes@.take(i as int));
            assert(next.last() == bytes@[i as int]);
            assert(out@ =~= old(out)@ + seq![0x22u8] + escape_bytes(next));
        }
        i += 1;
    }
    out.push(0x22);
    proof {
        assert(bytes@.take(bytes.len() as int) == bytes@);
        assert(out@ =~= old(out)@ + quoted(text@));
    }
}

/// Appends `bytes` to `out` as an array of decimal numbers.
pub fn push_byte_array(out: &mut Vec<u8>, bytes: &[u8])
    ensures
        final(out)@ == old(out)@ + byte_array(bytes@),
{
    let ghost parts = bytes@.map_values(|b: u8| decimal(b as nat));
    out.push(0x5b);
    let mut i: usize = 0;
    while i < bytes.len()
        invariant
            i <= bytes.len(),
            parts == bytes@.map_values(|b: u8| decimal(b as nat)),
            out@ == old(out)@ + seq![0x5bu8] + comma_joined(parts.take(i as int)),
        decreases bytes.len() - i,
    {
        if i > 0 {
            out.push(0x2c);
        }
        let ghost before = out@;
        push_decimal(out, bytes[i] as u64);
        proof {
            let item = decimal(bytes@[i as int] as nat);
            assert(parts[i as int] == item);
            assert(parts.take(i + 1) == parts.take(i as int).push(item));
            lemma_comma_joined_push(parts.take(i as int), item);
            assert(out@ =~= old(out)@ + seq![0x5bu8] + comma_joined(parts.take(i + 1)));
        }
        i += 1;
    }
    out.push(0x5d);
    proof {
        assert(parts.take(bytes.len() as int) == parts);
        assert(out@ =~= old(out)@ + byte_array(bytes@));
    }
}

} // verus!
