use vstd::prelude::*;

verus! {

/// The lower-case hexadecimal digit for a value below sixteen.
pub open spec fn hex_digit(n: int) -> char {
    if n < 10 {
        (n + ('0' as int)) as char
    } else {
        (n - 10 + ('a' as int)) as char
    }
}

/// Lower-case hexadecimal text of a byte string: two digits per byte, high nibble first.
pub open spec fn hex_lower(data: Seq<u8>) -> Seq<char>
    decreases data.len(),
{
    if data.len() == 0 {
        Seq::empty()
    } else {
        hex_lower(data.drop_last()) + seq![
            hex_digit(data.last() as int / 16),
            hex_digit(data.last() as int % 16),
        ]
    }
}

/// `String::push` from std: appends one character to the end of the string.
#[verifier::external_body]
pub(crate) fn push_char(s: &mut String, c: char)
    ensures
        final(s)@ == old(s)@.push(c),
{
    s.push(c);
}

fn hex_digit_char(n: u8) -> (c: char)
    requires
        n < 16,
    ensures
        c == hex_digit(n as int),
{
    if n < 10 {
        (('0' as u8) + n) as char
    } else {
        (('a' as u8) + (n - 10)) as char
    }
}

/// Appends the lower-case hexadecimal text of `data` to `out`.
pub fn push_hex(out: &mut String, data: &[u8])
    ensures
        final(out)@ == old(out)@ + hex_lower(data@),
{
    let ghost start = out@;
    let mut i: usize = 0;
    while i < data.len()
        invariant
            i <= data.len(),
            out@ == start + hex_lower(data@.take(i as int)),
        decreases data.len() - i,
    {
        let b = data[i];
        push_char(out, hex_digit_char(b / 16));
        push_char(out, hex_digit_char(b % 16));
        proof {
            assert(data@.take(i + 1).drop_last() =~= data@.take(i as int));
        }
        i = i + 1;
    }
    proof {
        assert(data@.take(data.len() as int) =~= data@);
    }
}

/// The lower-case hexadecimal text of `data`.
pub fn hex_encode(data: &[u8]) -> (s: String)
    ensures
        s@ == hex_lower(data@),
{
    let mut s = String::new();
    push_hex(&mut s, data);
    s
}

/// Every byte gives exactly two digits.
pub proof fn lemma_hex_len(data: Seq<u8>)
    ensures
        hex_lower(data).len() == 2 * data.len(),
    decreases data.len(),
{
    if data.len() > 0 {
        lemma_hex_len(data.drop_last());
    }
}

proof fn lemma_hex_digit_injective(n: int, m: int)
    requires
        0 <= n < 16,
        0 <= m < 16,
        hex_digit(n) == hex_digit(m),
    ensures
        n == m,
{
    assert(hex_digit(n) as int == if n < 10 { n + 48 } else { n + 87 });
    assert(hex_digit(m) as int == if m < 10 { m + 48 } else { m + 87 });
}

/// Each digit is the standard lower-case hexadecimal digit: the value's place in
/// `0123456789abcdef`.
pub proof fn lemma_hex_digit_alphabet(n: int)
    requires
        0 <= n < 16,
    ensures
        hex_digit(n) == "0123456789abcdef"@[n],
{
    reveal_strlit("0123456789abcdef");
}

/// Byte `i` of the data is written at places `2i` and `2i + 1`, high nibble first.
pub proof fn lemma_hex_lower_index(data: Seq<u8>, i: int)
    requires
        0 <= i < data.len(),
    ensures
        hex_lower(data).len() == 2 * data.len(),
        hex_lower(data)[2 * i] == "0123456789abcdef"@[data[i] as int / 16],
        hex_lower(data)[2 * i + 1] == "0123456789abcdef"@[data[i] as int % 16],
    decreases data.len(),
{
    lemma_hex_len(data);
    lemma_hex_len(data.drop_last());
    lemma_hex_digit_alphabet(data[i] as int / 16);
    lemma_hex_digit_alphabet(data[i] as int % 16);
    if i < data.len() - 1 {
        lemma_hex_lower_index(data.drop_last(), i);
        assert(data.drop_last()[i] == data[i]);
    }
}

/// Different byte strings have different hexadecimal texts.
pub proof fn lemma_hex_injective(a: Seq<u8>, b: Seq<u8>)
    requires
        hex_lower(a) == hex_lower(b),
    ensures
        a == b,
    decreases a.len(),
{
    lemma_hex_len(a);
    lemma_hex_len(b);
    if a.len() > 0 {
        let ha = hex_lower(a);
        let hb = hex_lower(b);
        lemma_hex_len(a.drop_last());
        lemma_hex_len(b.drop_last());
        let k = ha.len() - 2;
        assert(ha[k] == hex_digit(a.last() as int / 16));
        assert(hb[k] == hex_digit(b.last() as int / 16));
        assert(ha[k + 1] == hex_digit(a.last() as int % 16));
        assert(hb[k + 1] == hex_digit(b.last() as int % 16));
        lemma_hex_digit_injective(a.last() as int / 16, b.last() as int / 16);
        lemma_hex_digit_injective(a.last() as int % 16, b.last() as int % 16);
        assert(hex_lower(a.drop_last()) =~= ha.take(k));
        assert(hex_lower(b.drop_last()) =~= hb.take(k));
        lemma_hex_injective(a.drop_last(), b.drop_last());
        assert(a =~= a.drop_last().push(a.last()));
        assert(b =~= b.drop_last().push(b.last()));
    }
}

} // verus!
