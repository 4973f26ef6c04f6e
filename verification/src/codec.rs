//! The wire codec.
//!
//! Frames and application payloads travel as length-delimited records
//! in a tag-length-value scheme: each present field is a tag byte
//! followed by a base-128 varint and, for byte fields, that many bytes
//! of content. Fields holding their default value (an empty byte
//! string, a zero integer) are omitted; optional fields are written
//! exactly when present. The spec-level encoder and parser below are
//! the single definition of the format; every executable function is
//! proved equal to them.

use vstd::prelude::*;

verus! {

/// The canonical base-128 varint encoding of `n`: seven bits per byte,
/// least significant group first, the high bit marking continuation.
pub open spec fn spec_varint(n: nat) -> Seq<u8>
    decreases n,
{
    if n < 128 {
        seq![n as u8]
    } else {
        seq![(128 + (n % 128)) as u8] + spec_varint(n / 128)
    }
}

/// Parses a varint at position `i`, yielding the value and the
/// position just past it. Accepts any continuation chain that ends
/// before the end of `s`.
pub open spec fn sp_varint(s: Seq<u8>, i: int) -> Option<(nat, int)>
    decreases s.len() - i,
{
    if i < 0 || i >= s.len() {
        None
    } else if s[i] < 128 {
        Some((s[i] as nat, i + 1))
    } else {
        match sp_varint(s, i + 1) {
            None => None,
            Some((v, j)) => Some(((s[i] - 128) as nat + 128 * v, j)),
        }
    }
}

/// A varint encodes back to the value it was encoded from, wherever it
/// stands inside a larger string.
pub proof fn lemma_varint_round_trip(s: Seq<u8>, i: int, n: nat)
    requires
        0 <= i,
        i + spec_varint(n).len() <= s.len(),
        s.subrange(i, i + spec_varint(n).len()) == spec_varint(n),
    ensures
        sp_varint(s, i) == Some((n, i + spec_varint(n).len())),
    decreases n,
{
    let e = spec_varint(n);
    assert(s[i] == e[0]);
    if n < 128 {
        assert(s[i] == n as u8);
    } else {
        let rest = spec_varint(n / 128);
        assert(s[i] == (128 + (n % 128)) as u8);
        assert(s.subrange(i + 1, i + 1 + rest.len()) =~= e.subrange(1, e.len() as int));
        assert(e.subrange(1, e.len() as int) =~= rest);
        lemma_varint_round_trip(s, i + 1, n / 128);
        assert((s[i] - 128) as nat + 128 * (n / 128) == n % 128 + 128 * (n / 128));
        assert(n % 128 + 128 * (n / 128) == n) by (nonlinear_arith);
    }
}

/// Appends the varint encoding of `n` to `out`.
pub fn encode_varint(n: u64, out: &mut Vec<u8>)
    ensures
        final(out)@ == old(out)@ + spec_varint(n as nat),
    decreases n,
{
    if n < 128 {
        out.push(n as u8);
        assert(final(out)@ =~= old(out)@ + spec_varint(n as nat));
    } else {
        out.push((128 + (n % 128)) as u8);
        encode_varint(n / 128, out);
        assert(final(out)@ =~= old(out)@ + spec_varint(n as nat));
    }
}

/// Parses a varint at position `i`, refusing values that do not fit in
/// 64 bits; the result is exactly what the spec-level parser yields.
pub fn parse_varint(s: &Vec<u8>, i: usize) -> (r: Option<(u64, usize)>)
    requires
        i <= s@.len(),
    ensures
        match sp_varint(s@, i as int) {
            None => r is None,
            Some((n, j)) => if n < 0x10000000000000000 {
                r == Some((n as u64, j as usize))
            } else {
                r is None
            },
        },
        r matches Some((_, j)) ==> i < j <= s@.len(),
    decreases s@.len() - i,
{
    if i >= s.len() {
        return None;
    }
    let b = s[i];
    if b < 128 {
        return Some((b as u64, i + 1));
    }
    match parse_varint(s, i + 1) {
        None => None,
        Some((v, j)) => {
            if v >= 0x200000000000000u64 {
                proof {
                    let (n, _) = sp_varint(s@, i as int).unwrap();
                    assert(n == (b - 128) as nat + 128 * (v as nat));
                    assert(128 * (v as nat) >= 128 * 0x200000000000000) by (nonlinear_arith)
                        requires
                            v as nat >= 0x200000000000000,
                    ;
                }
                None
            } else {
                Some(((b - 128) as u64 + 128 * v, j))
            }
        },
    }
}

/// Parses a length-delimited byte field at position `i`: a varint
/// length followed by that many content bytes.
pub open spec fn sp_bytes_at(s: Seq<u8>, i: int) -> Option<(Seq<u8>, int)> {
    match sp_varint(s, i) {
        None => None,
        Some((n, j)) => if j + n <= s.len() {
            Some((s.subrange(j, j + n), j + n))
        } else {
            None
        },
    }
}

/// Parses an optional byte field: when the tag byte stands at `i` the
/// field is present, otherwise parsing continues at `i` with the field
/// absent.
pub open spec fn sp_opt_bytes(s: Seq<u8>, i: int, tag: u8) -> Option<(Option<Seq<u8>>, int)> {
    if 0 <= i < s.len() && s[i] == tag {
        match sp_bytes_at(s, i + 1) {
            None => None,
            Some((b, j)) => Some((Some(b), j)),
        }
    } else {
        Some((None, i))
    }
}

/// Parses an optional varint field whose value must fit in 64 bits.
pub open spec fn sp_opt_u64(s: Seq<u8>, i: int, tag: u8) -> Option<(Option<u64>, int)> {
    if 0 <= i < s.len() && s[i] == tag {
        match sp_varint(s, i + 1) {
            None => None,
            Some((n, j)) => if n < 0x10000000000000000 {
                Some((Some(n as u64), j))
            } else {
                None
            },
        }
    } else {
        Some((None, i))
    }
}

/// Parses an optional varint field whose value must fit in 32 bits.
pub open spec fn sp_opt_u32(s: Seq<u8>, i: int, tag: u8) -> Option<(Option<u32>, int)> {
    if 0 <= i < s.len() && s[i] == tag {
        match sp_varint(s, i + 1) {
            None => None,
            Some((n, j)) => if n < 0x100000000 {
                Some((Some(n as u32), j))
            } else {
                None
            },
        }
    } else {
        Some((None, i))
    }
}

/// The encoding of a present byte field.
pub open spec fn enc_bytes_field(tag: u8, b: Seq<u8>) -> Seq<u8> {
    seq![tag] + spec_varint(b.len()) + b
}

/// The encoding of a present varint field.
pub open spec fn enc_uint_field(tag: u8, n: nat) -> Seq<u8> {
    seq![tag] + spec_varint(n)
}

/// A byte field written only when its content is non-empty.
pub open spec fn enc_nonempty_bytes(tag: u8, b: Seq<u8>) -> Seq<u8> {
    if b.len() == 0 {
        Seq::empty()
    } else {
        enc_bytes_field(tag, b)
    }
}

/// A varint field written only when its value is non-zero.
pub open spec fn enc_nonzero_uint(tag: u8, n: nat) -> Seq<u8> {
    if n == 0 {
        Seq::empty()
    } else {
        enc_uint_field(tag, n)
    }
}

/// An optional byte field, written exactly when present.
pub open spec fn enc_opt_bytes(tag: u8, o: Option<Seq<u8>>) -> Seq<u8> {
    match o {
        None => Seq::empty(),
        Some(b) => enc_bytes_field(tag, b),
    }
}

pub open spec fn opt_bytes_or_empty(o: Option<Seq<u8>>) -> Seq<u8> {
    match o {
        None => Seq::empty(),
        Some(b) => b,
    }
}

pub open spec fn opt_u64_or_zero(o: Option<u64>) -> u64 {
    match o {
        None => 0,
        Some(n) => n,
    }
}

pub open spec fn opt_u32_or_zero(o: Option<u32>) -> u32 {
    match o {
        None => 0,
        Some(n) => n,
    }
}

/// A present byte field parses back to its content.
pub proof fn lemma_opt_bytes_present(s: Seq<u8>, i: int, tag: u8, b: Seq<u8>)
    requires
        0 <= i,
        i + enc_bytes_field(tag, b).len() <= s.len(),
        s.subrange(i, i + enc_bytes_field(tag, b).len()) == enc_bytes_field(tag, b),
    ensures
        sp_opt_bytes(s, i, tag) == Some((Some(b), i + enc_bytes_field(tag, b).len())),
{
    let e = enc_bytes_field(tag, b);
    let v = spec_varint(b.len());
    assert(s[i] == e[0]);
    assert(e[0] == tag);
    assert(s.subrange(i + 1, i + 1 + v.len()) =~= e.subrange(1, 1 + v.len() as int));
    assert(e.subrange(1, 1 + v.len() as int) =~= v);
    lemma_varint_round_trip(s, i + 1, b.len());
    let j = i + 1 + v.len();
    assert(s.subrange(j, j + b.len()) =~= e.subrange(1 + v.len() as int, e.len() as int));
    assert(e.subrange(1 + v.len() as int, e.len() as int) =~= b);
}

/// A present varint field parses back to its value.
pub proof fn lemma_opt_uint_present(s: Seq<u8>, i: int, tag: u8, n: nat)
    requires
        0 <= i,
        i + enc_uint_field(tag, n).len() <= s.len(),
        s.subrange(i, i + enc_uint_field(tag, n).len()) == enc_uint_field(tag, n),
    ensures
        sp_varint(s, i + 1) == Some((n, i + enc_uint_field(tag, n).len())),
        0 <= i < s.len() && s[i] == tag,
{
    let e = enc_uint_field(tag, n);
    let v = spec_varint(n);
    assert(s[i] == e[0]);
    assert(e[0] == tag);
    assert(s.subrange(i + 1, i + 1 + v.len()) =~= e.subrange(1, e.len() as int));
    assert(e.subrange(1, e.len() as int) =~= v);
    lemma_varint_round_trip(s, i + 1, n);
}

/// A successful varint parse lands strictly past where it started and
/// within the string.
pub proof fn lemma_sp_varint_bounds(s: Seq<u8>, i: int)
    requires
        0 <= i,
    ensures
        sp_varint(s, i) matches Some((n, j)) ==> i < j <= s.len(),
    decreases s.len() - i,
{
    if 0 <= i < s.len() && s[i] >= 128 {
        lemma_sp_varint_bounds(s, i + 1);
    }
}

/// A successful optional-byte-field parse lands at or past where it
/// started and within the string.
pub proof fn lemma_sp_opt_bytes_bounds(s: Seq<u8>, i: int, tag: u8)
    requires
        0 <= i <= s.len(),
    ensures
        sp_opt_bytes(s, i, tag) matches Some((_, j)) ==> i <= j <= s.len(),
{
    if 0 <= i < s.len() && s[i] == tag {
        lemma_sp_varint_bounds(s, i + 1);
    }
}

/// A successful optional-varint-field parse lands at or past where it
/// started and within the string.
pub proof fn lemma_sp_opt_uint_bounds(s: Seq<u8>, i: int, tag: u8)
    requires
        0 <= i <= s.len(),
    ensures
        sp_opt_u64(s, i, tag) matches Some((_, j)) ==> i <= j <= s.len(),
        sp_opt_u32(s, i, tag) matches Some((_, j)) ==> i <= j <= s.len(),
{
    if 0 <= i < s.len() && s[i] == tag {
        lemma_sp_varint_bounds(s, i + 1);
    }
}

/// Copies the bytes of `s` between `a` and `b` into a fresh vector.
pub fn copy_range(s: &Vec<u8>, a: usize, b: usize) -> (r: Vec<u8>)
    requires
        a <= b <= s@.len(),
    ensures
        r@ == s@.subrange(a as int, b as int),
{
    let mut out: Vec<u8> = Vec::new();
    let mut i: usize = a;
    assert(out@ =~= s@.subrange(a as int, a as int));
    while i < b
        invariant
            a <= i <= b <= s@.len(),
            out@ == s@.subrange(a as int, i as int),
        decreases b - i,
    {
        out.push(s[i]);
        assert(out@ =~= s@.subrange(a as int, i + 1));
        i = i + 1;
    }
    out
}

/// Appends all of `data` to `out`.
pub fn push_bytes(out: &mut Vec<u8>, data: &Vec<u8>)
    ensures
        final(out)@ == old(out)@ + data@,
{
    let mut i: usize = 0;
    assert(out@ =~= old(out)@ + data@.subrange(0, 0));
    while i < data.len()
        invariant
            i <= data@.len(),
            out@ == old(out)@ + data@.subrange(0, i as int),
        decreases data@.len() - i,
    {
        out.push(data[i]);
        assert(out@ =~= old(out)@ + data@.subrange(0, i + 1));
        i = i + 1;
    }
    assert(out@ =~= old(out)@ + data@);
}

/// Parses an optional byte field, as the spec-level parser does.
pub fn parse_opt_bytes(s: &Vec<u8>, i: usize, tag: u8) -> (r: Option<(Option<Vec<u8>>, usize)>)
    requires
        i <= s@.len(),
    ensures
        match sp_opt_bytes(s@, i as int, tag) {
            None => r is None,
            Some((o, j)) => r matches Some((ro, rj)) && rj == j && (match (o, ro) {
                (None, None) => true,
                (Some(b), Some(rb)) => rb@ == b,
                _ => false,
            }),
        },
        r matches Some((_, rj)) ==> i <= rj <= s@.len(),
{
    let slen: usize = s.len();
    if i < slen && s[i] == tag {
        match parse_varint(s, i + 1) {
            None => {
                proof {
                    match sp_varint(s@, i + 1) {
                        Some((n, j)) => {
                            lemma_sp_varint_bounds(s@, i + 1);
                            assert(n >= 0x10000000000000000);
                            assert(s@.len() == slen as int);
                            assert(j + n > s@.len());
                        },
                        None => {},
                    }
                }
                None
            },
            Some((n, j)) => {
                if n <= (slen - j) as u64 {
                    proof {
                        let (nsp, jsp) = sp_varint(s@, i as int + 1).unwrap();
                        lemma_sp_varint_bounds(s@, i as int + 1);
                        assert(nsp == n as nat);
                        assert(jsp == j as int);
                        assert(s@.len() == slen as int);
                        assert(jsp + nsp <= s@.len());
                    }
                    let content = copy_range(s, j, j + (n as usize));
                    Some((Some(content), j + (n as usize)))
                } else {
                    proof {
                        let (nsp, jsp) = sp_varint(s@, i as int + 1).unwrap();
                        lemma_sp_varint_bounds(s@, i as int + 1);
                        assert(nsp == n as nat);
                        assert(jsp == j as int);
                        assert(s@.len() == slen as int);
                        assert(jsp + nsp > s@.len());
                    }
                    None
                }
            },
        }
    } else {
        Some((None, i))
    }
}

/// Parses an optional 64-bit varint field, as the spec-level parser
/// does.
pub fn parse_opt_u64(s: &Vec<u8>, i: usize, tag: u8) -> (r: Option<(Option<u64>, usize)>)
    requires
        i <= s@.len(),
    ensures
        match sp_opt_u64(s@, i as int, tag) {
            None => r is None,
            Some((o, j)) => r == Some((o, j as usize)),
        },
        r matches Some((_, rj)) ==> i <= rj <= s@.len(),
{
    if i < s.len() && s[i] == tag {
        match parse_varint(s, i + 1) {
            None => None,
            Some((n, j)) => Some((Some(n), j)),
        }
    } else {
        Some((None, i))
    }
}

/// Parses an optional 32-bit varint field, as the spec-level parser
/// does.
pub fn parse_opt_u32(s: &Vec<u8>, i: usize, tag: u8) -> (r: Option<(Option<u32>, usize)>)
    requires
        i <= s@.len(),
    ensures
        match sp_opt_u32(s@, i as int, tag) {
            None => r is None,
            Some((o, j)) => r == Some((o, j as usize)),
        },
        r matches Some((_, rj)) ==> i <= rj <= s@.len(),
{
    if i < s.len() && s[i] == tag {
        match parse_varint(s, i + 1) {
            None => None,
            Some((n, j)) => {
                if n < 0x100000000u64 {
                    Some((Some(n as u32), j))
                } else {
                    None
                }
            },
        }
    } else {
        Some((None, i))
    }
}

} // verus!
