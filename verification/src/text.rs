//! Byte-level text utilities: splitting source text into lines and
//! whitespace-separated tokens, reading decimal numerals, and rendering
//! decimal and hexadecimal numerals.

use vstd::prelude::*;
use vstd::slice::{slice_subrange, slice_to_vec};

verus! {

/// ASCII whitespace: space, tab, line feed, vertical tab, form feed,
/// carriage return.
pub open spec fn is_space(b: u8) -> bool {
    b == 32 || b == 9 || b == 10 || b == 11 || b == 12 || b == 13
}

/// The lines of `s`, split on line feeds. A trailing line feed closes the
/// last line; it does not open an empty one.
pub open spec fn lines_of(s: Seq<u8>) -> Seq<Seq<u8>>
    decreases s.len(),
{
    if s.len() == 0 {
        seq![]
    } else if s[0] == 10 {
        seq![seq![]] + lines_of(s.drop_first())
    } else {
        let rest = lines_of(s.drop_first());
        if rest.len() == 0 {
            seq![seq![s[0]]]
        } else {
            seq![seq![s[0]] + rest[0]] + rest.skip(1)
        }
    }
}

/// The maximal whitespace-separated tokens of `s`, in order.
pub open spec fn tokens_of(s: Seq<u8>) -> Seq<Seq<u8>>
    decreases s.len(),
{
    if s.len() == 0 {
        seq![]
    } else if is_space(s[0]) {
        tokens_of(s.drop_first())
    } else if s.len() == 1 {
        seq![seq![s[0]]]
    } else if is_space(s[1]) {
        seq![seq![s[0]]] + tokens_of(s.drop_first())
    } else {
        let rest = tokens_of(s.drop_first());
        if rest.len() == 0 {
            seq![seq![s[0]]]
        } else {
            seq![seq![s[0]] + rest[0]] + rest.skip(1)
        }
    }
}

/// There is at most one line per byte of source.
pub proof fn lemma_lines_of_len(s: Seq<u8>)
    ensures
        lines_of(s).len() <= s.len(),
    decreases s.len(),
{
    if s.len() != 0 {
        lemma_lines_of_len(s.drop_first());
    }
}

/// Whether `b` is a decimal digit.
pub open spec fn is_digit(b: u8) -> bool {
    48 <= b && b <= 57
}

/// Whether every byte of `s` is a decimal digit.
pub open spec fn all_digits(s: Seq<u8>) -> bool {
    forall|i: int| 0 <= i < s.len() ==> is_digit(#[trigger] s[i])
}

/// The value of `s` read as a decimal numeral, most significant digit first.
pub open spec fn dec_val(s: Seq<u8>) -> int
    decreases s.len(),
{
    if s.len() == 0 {
        0
    } else {
        dec_val(s.drop_last()) * 10 + s.last() - 48
    }
}

/// `s` read as an unsigned 32-bit decimal numeral: at least one digit,
/// nothing but digits, value at most `u32::MAX`.
pub open spec fn dec_u32(s: Seq<u8>) -> Option<u32> {
    if s.len() > 0 && all_digits(s) && dec_val(s) <= u32::MAX {
        Some(dec_val(s) as u32)
    } else {
        None
    }
}

proof fn lemma_dec_val_nonneg(s: Seq<u8>)
    requires
        all_digits(s),
    ensures
        dec_val(s) >= 0,
    decreases s.len(),
{
    if s.len() != 0 {
        assert(all_digits(s.drop_last()));
        lemma_dec_val_nonneg(s.drop_last());
    }
}

proof fn lemma_dec_val_mono(s: Seq<u8>, i: int)
    requires
        all_digits(s),
        0 <= i <= s.len(),
    ensures
        dec_val(s.take(i)) <= dec_val(s),
    decreases s.len() - i,
{
    if i < s.len() {
        lemma_dec_val_mono(s, i + 1);
        let t = s.take(i + 1);
        assert(t.drop_last() =~= s.take(i));
        assert(all_digits(s.take(i)));
        lemma_dec_val_nonneg(s.take(i));
        assert(dec_val(s.take(i)) <= dec_val(t));
    } else {
        assert(s.take(i) =~= s);
    }
}

/// Read `s` as an unsigned 32-bit decimal numeral.
pub fn parse_u32(s: &[u8]) -> (r: Option<u32>)
    ensures
        r == dec_u32(s@),
{
    if s.len() == 0 {
        return None;
    }
    let mut acc: u32 = 0;
    let mut i: usize = 0;
    while i < s.len()
        invariant
            0 <= i <= s@.len(),
            all_digits(s@.take(i as int)),
            acc == dec_val(s@.take(i as int)),
        decreases s@.len() - i,
    {
        let b = s[i];
        if b < 48 || b > 57 {
            assert(!all_digits(s@));
            return None;
        }
        let d = (b - 48) as u32;
        proof {
            assert(s@.take(i + 1).drop_last() =~= s@.take(i as int));
            assert(all_digits(s@.take(i + 1)));
        }
        if acc > (u32::MAX - d) / 10 {
            proof {
                assert(acc * 10 + d > u32::MAX) by (nonlinear_arith)
                    requires
                        acc > (u32::MAX - d) / 10,
                        d <= 9,
                ;
                if all_digits(s@) {
                    lemma_dec_val_mono(s@, i + 1);
                }
            }
            return None;
        }
        assert(acc * 10 + d <= u32::MAX) by (nonlinear_arith)
            requires
                acc <= (u32::MAX - d) / 10,
                d <= 9,
        ;
        acc = acc * 10 + d;
        i += 1;
    }
    proof {
        assert(s@.take(i as int) =~= s@);
    }
    Some(acc)
}

/// The shortest decimal numeral for `n`, most significant digit first.
pub open spec fn dec_repr(n: nat) -> Seq<u8>
    decreases n,
{
    if n < 10 {
        seq![(48 + n) as u8]
    } else {
        dec_repr(n / 10) + seq![(48 + n % 10) as u8]
    }
}

/// The digit for a hexadecimal place value below 16, upper case.
pub open spec fn hex_digit(n: nat) -> u8 {
    if n < 10 {
        (48 + n) as u8
    } else {
        (55 + n) as u8
    }
}

/// The shortest upper-case hexadecimal numeral for `n`, most significant
/// digit first.
pub open spec fn hex_repr(n: nat) -> Seq<u8>
    decreases n,
{
    if n < 16 {
        seq![hex_digit(n)]
    } else {
        hex_repr(n / 16) + seq![hex_digit(n % 16)]
    }
}

/// Append the decimal numeral for `n` to `out`.
pub fn push_dec(out: &mut Vec<u8>, n: u32)
    ensures
        final(out)@ == old(out)@ + dec_repr(n as nat),
    decreases n,
{
    if n < 10 {
        out.push(48 + n as u8);
        assert(final(out)@ =~= old(out)@ + dec_repr(n as nat));
    } else {
        push_dec(out, n / 10);
        out.push(48 + (n % 10) as u8);
        assert(final(out)@ =~= old(out)@ + dec_repr(n as nat));
    }
}

/// Append the upper-case hexadecimal numeral for `n` to `out`.
pub fn push_hex(out: &mut Vec<u8>, n: u32)
    ensures
        final(out)@ == old(out)@ + hex_repr(n as nat),
    decreases n,
{
    if n < 16 {
        let d = if n < 10 {
            48 + n as u8
        } else {
            55 + n as u8
        };
        out.push(d);
        assert(final(out)@ =~= old(out)@ + hex_repr(n as nat));
    } else {
        push_hex(out, n / 16);
        let m = n % 16;
        let d = if m < 10 {
            48 + m as u8
        } else {
            55 + m as u8
        };
        out.push(d);
        assert(final(out)@ =~= old(out)@ + hex_repr(n as nat));
    }
}

/// Append every byte of `s` to `out`.
pub fn push_bytes(out: &mut Vec<u8>, s: &[u8])
    ensures
        final(out)@ == old(out)@ + s@,
{
    let mut i: usize = 0;
    while i < s.len()
        invariant
            0 <= i <= s@.len(),
            out@ == old(out)@ + s@.take(i as int),
        decreases s@.len() - i,
    {
        out.push(s[i]);
        assert(out@ =~= old(out)@ + s@.take(i + 1));
        i += 1;
    }
    assert(out@ =~= old(out)@ + s@);
}

/// Whether two byte slices hold the same bytes.
pub fn bytes_eq(a: &[u8], b: &[u8]) -> (r: bool)
    ensures
        r == (a@ == b@),
{
    if a.len() != b.len() {
        return false;
    }
    let mut i: usize = 0;
    while i < a.len()
        invariant
            0 <= i <= a@.len(),
            a@.len() == b@.len(),
            forall|j: int| 0 <= j < i ==> a@[j] == b@[j],
        decreases a@.len() - i,
    {
        if a[i] != b[i] {
            return false;
        }
        i += 1;
    }
    proof {
        assert(a@ =~= b@);
    }
    true
}

/// The lines of `s[from..]`, split on line feeds.
fn split_lines_from(s: &[u8], from: usize) -> (r: Vec<Vec<u8>>)
    requires
        from <= s@.len(),
    ensures
        r@.map_values(|l: Vec<u8>| l@) == lines_of(s@.skip(from as int)),
    decreases s@.len() - from,
{
    if from >= s.len() {
        let r: Vec<Vec<u8>> = Vec::new();
        assert(r@.map_values(|l: Vec<u8>| l@) =~= lines_of(s@.skip(from as int)));
        return r;
    }
    let b = s[from];
    proof {
        assert(s@.skip(from as int) =~= seq![s@[from as int]] + s@.skip(from as int + 1));
        assert(s@.skip(from as int).drop_first() =~= s@.skip(from as int + 1));
    }
    let mut rest = split_lines_from(s, from + 1);
    let ghost rest_spec = lines_of(s@.skip(from as int + 1));
    if b == 10 {
        rest.insert(0, Vec::new());
        assert(rest@.map_values(|l: Vec<u8>| l@) =~= seq![Seq::<u8>::empty()] + rest_spec);
        assert(seq![Seq::<u8>::empty()] + rest_spec =~= lines_of(s@.skip(from as int)));
        rest
    } else if rest.len() == 0 {
        let mut first: Vec<u8> = Vec::new();
        first.push(b);
        let mut r: Vec<Vec<u8>> = Vec::new();
        r.push(first);
        assert(rest_spec.len() == 0);
        assert(r@.map_values(|l: Vec<u8>| l@) =~= lines_of(s@.skip(from as int)));
        r
    } else {
        let ghost old_rest = rest@;
        let first = &mut rest[0];
        first.insert(0, b);
        proof {
            assert(rest@[0]@ =~= seq![s@[from as int]] + old_rest[0]@);
            assert(rest@.map_values(|l: Vec<u8>| l@) =~~= lines_of(s@.skip(from as int)));
        }
        rest
    }
}

/// The lines of `s`, split on line feeds.
pub fn split_lines(s: &[u8]) -> (r: Vec<Vec<u8>>)
    ensures
        r@.map_values(|l: Vec<u8>| l@) == lines_of(s@),
{
    let r = split_lines_from(s, 0);
    proof {
        assert(s@.skip(0) =~= s@);
    }
    r
}

/// The whitespace-separated tokens of `s[from..]`.
fn tokens_from(s: &[u8], from: usize) -> (r: Vec<Vec<u8>>)
    requires
        from <= s@.len(),
    ensures
        r@.map_values(|t: Vec<u8>| t@) == tokens_of(s@.skip(from as int)),
    decreases s@.len() - from,
{
    if from >= s.len() {
        let r: Vec<Vec<u8>> = Vec::new();
        assert(r@.map_values(|t: Vec<u8>| t@) =~= tokens_of(s@.skip(from as int)));
        return r;
    }
    let b = s[from];
    proof {
        assert(s@.skip(from as int) =~= seq![s@[from as int]] + s@.skip(from as int + 1));
        assert(s@.skip(from as int).drop_first() =~= s@.skip(from as int + 1));
    }
    let space = b == 32 || b == 9 || b == 10 || b == 11 || b == 12 || b == 13;
    if space {
        let r = tokens_from(s, from + 1);
        assert(r@.map_values(|t: Vec<u8>| t@) =~= tokens_of(s@.skip(from as int)));
        return r;
    }
    if from + 1 >= s.len() {
        let mut tok: Vec<u8> = Vec::new();
        tok.push(b);
        let mut r: Vec<Vec<u8>> = Vec::new();
        r.push(tok);
        assert(s@.skip(from as int).len() == 1);
        assert(r@.map_values(|t: Vec<u8>| t@) =~= tokens_of(s@.skip(from as int)));
        return r;
    }
    let b2 = s[from + 1];
    let space2 = b2 == 32 || b2 == 9 || b2 == 10 || b2 == 11 || b2 == 12 || b2 == 13;
    let mut rest = tokens_from(s, from + 1);
    let ghost rest_spec = tokens_of(s@.skip(from as int + 1));
    proof {
        assert(s@.skip(from as int)[1] == s@[from as int + 1]);
    }
    if space2 {
        let mut tok: Vec<u8> = Vec::new();
        tok.push(b);
        rest.insert(0, tok);
        assert(rest@.map_values(|t: Vec<u8>| t@) =~= seq![seq![s@[from as int]]] + rest_spec);
        assert(seq![seq![s@[from as int]]] + rest_spec =~= tokens_of(s@.skip(from as int)));
        rest
    } else if rest.len() == 0 {
        let mut tok: Vec<u8> = Vec::new();
        tok.push(b);
        let mut r: Vec<Vec<u8>> = Vec::new();
        r.push(tok);
        assert(rest_spec.len() == 0);
        assert(r@.map_values(|t: Vec<u8>| t@) =~= tokens_of(s@.skip(from as int)));
        r
    } else {
        let ghost old_rest = rest@;
        let first = &mut rest[0];
        first.insert(0, b);
        proof {
            assert(rest@[0]@ =~= seq![s@[from as int]] + old_rest[0]@);
            assert(rest@.map_values(|t: Vec<u8>| t@) =~~= tokens_of(s@.skip(from as int)));
        }
        rest
    }
}

/// The whitespace-separated tokens of `s`.
pub fn tokenize(s: &[u8]) -> (r: Vec<Vec<u8>>)
    ensures
        r@.map_values(|t: Vec<u8>| t@) == tokens_of(s@),
{
    let r = tokens_from(s, 0);
    proof {
        assert(s@.skip(0) =~= s@);
    }
    r
}

/// Copy a byte slice into an owned vector.
pub fn copy_bytes(s: &[u8]) -> (r: Vec<u8>)
    ensures
        r@ == s@,
{
    slice_to_vec(s)
}

/// A sub-slice, `s[i..j]`.
pub fn sub_bytes<'a>(s: &'a [u8], i: usize, j: usize) -> (r: &'a [u8])
    requires
        0 <= i <= j <= s@.len(),
    ensures
        r@ == s@.subrange(i as int, j as int),
{
    slice_subrange(s, i, j)
}

} // verus!
