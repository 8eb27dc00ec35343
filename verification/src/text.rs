//! Byte strings: the bytes of ASCII text, equality and decimal digits.

use vstd::prelude::*;
use vstd::string::is_ascii_spec_bytes;

verus! {

/// The bytes of a text made of ASCII characters only.
pub open spec fn ascii(text: Seq<char>) -> Seq<u8> {
    Seq::new(text.len(), |i: int| text[i] as u8)
}

/// The bytes of an ASCII text.
pub fn ascii_bytes<'a>(word: &'a str) -> (bytes: &'a [u8])
    requires
        word.is_ascii(),
    ensures
        bytes@ == ascii(word@),
{
    broadcast use is_ascii_spec_bytes;

    word.as_bytes()
}

/// Whether two byte strings hold the same bytes.
pub fn same_bytes(left: &[u8], right: &[u8]) -> (same: bool)
    ensures
        same == (left@ == right@),
{
    if left.len() != right.len() {
        return false;
    }
    let mut i: usize = 0;
    while i < left.len()
        invariant
            left@.len() == right@.len(),
            i <= left@.len(),
            forall|j: int| 0 <= j < i ==> left@[j] == right@[j],
        decreases left@.len() - i,
    {
        if left[i] != right[i] {
            return false;
        }
        i += 1;
    }
    assert(left@ =~= right@);
    true
}

/// Whether a byte string spells the given ASCII word.
pub fn spells(bytes: &[u8], word: &str) -> (yes: bool)
    requires
        word.is_ascii(),
    ensures
        yes == (bytes@ == ascii(word@)),
{
    same_bytes(bytes, ascii_bytes(word))
}

/// The decimal digits of `n`, the most significant first.
pub open spec fn digits(n: nat) -> Seq<u8>
    decreases n,
{
    if n < 10 {
        seq![(0x30 + n) as u8]
    } else {
        digits(n / 10).push((0x30 + n % 10) as u8)
    }
}

/// `text` behind as many `fill` bytes as it takes to make `width` bytes;
/// `text` as it is where it has that many.
pub open spec fn pad_left(text: Seq<u8>, width: nat, fill: u8) -> Seq<u8> {
    if text.len() < width {
        Seq::new((width - text.len()) as nat, |i: int| fill) + text
    } else {
        text
    }
}

/// `text` followed by as many `fill` bytes as it takes to make `width`
/// bytes; `text` as it is where it has that many.
pub open spec fn pad_right(text: Seq<u8>, width: nat, fill: u8) -> Seq<u8> {
    if text.len() < width {
        text + Seq::new((width - text.len()) as nat, |i: int| fill)
    } else {
        text
    }
}

/// The decimal digits of `n`.
pub fn decimal(n: u64) -> (text: Vec<u8>)
    ensures
        text@ == digits(n as nat),
    decreases n,
{
    if n < 10 {
        let mut text = Vec::new();
        text.push(0x30 + n as u8);
        assert(text@ =~= digits(n as nat));
        text
    } else {
        let mut text = decimal(n / 10);
        text.push(0x30 + (n % 10) as u8);
        text
    }
}

/// Appends `bytes` to `out`.
pub fn append(out: &mut Vec<u8>, bytes: &[u8])
    ensures
        final(out)@ == old(out)@ + bytes@,
{
    let mut i: usize = 0;
    while i < bytes.len()
        invariant
            i <= bytes@.len(),
            out@ == old(out)@ + bytes@.subrange(0, i as int),
        decreases bytes@.len() - i,
    {
        out.push(bytes[i]);
        i += 1;
        assert(out@ =~= old(out)@ + bytes@.subrange(0, i as int));
    }
    assert(bytes@.subrange(0, i as int) =~= bytes@);
}

/// Appends an ASCII text to `out`.
pub fn append_text(out: &mut Vec<u8>, word: &str)
    requires
        word.is_ascii(),
    ensures
        final(out)@ == old(out)@ + ascii(word@),
{
    append(out, ascii_bytes(word));
}

/// Appends `count` times the byte `fill` to `out`.
pub fn append_fill(out: &mut Vec<u8>, count: usize, fill: u8)
    ensures
        final(out)@ == old(out)@ + Seq::new(count as nat, |i: int| fill),
{
    let mut i: usize = 0;
    while i < count
        invariant
            i <= count,
            out@ == old(out)@ + Seq::new(i as nat, |j: int| fill),
        decreases count - i,
    {
        out.push(fill);
        i += 1;
        assert(out@ =~= old(out)@ + Seq::new(i as nat, |j: int| fill));
    }
}

/// Appends `text` to `out`, behind the fill that brings it to `width`.
pub fn append_padded_left(out: &mut Vec<u8>, text: &[u8], width: usize, fill: u8)
    ensures
        final(out)@ == old(out)@ + pad_left(text@, width as nat, fill),
{
    if text.len() < width {
        append_fill(out, width - text.len(), fill);
    }
    append(out, text);
    assert(out@ =~= old(out)@ + pad_left(text@, width as nat, fill));
}

/// Appends `text` to `out`, followed by the fill that brings it to `width`.
pub fn append_padded_right(out: &mut Vec<u8>, text: &[u8], width: usize, fill: u8)
    ensures
        final(out)@ == old(out)@ + pad_right(text@, width as nat, fill),
{
    append(out, text);
    if text.len() < width {
        append_fill(out, width - text.len(), fill);
    }
    assert(out@ =~= old(out)@ + pad_right(text@, width as nat, fill));
}

} // verus!
