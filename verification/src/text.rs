//! Byte-string utilities shared by the wire decoders and the
//! special-comment parser: decimal number reading and separator splitting,
//! each with an exact mathematical description.

use vstd::prelude::*;

verus! {

pub open spec fn is_digit(b: u8) -> bool {
    48 <= b <= 57
}

pub open spec fn all_digits(s: Seq<u8>) -> bool {
    forall|i: int| 0 <= i < s.len() ==> is_digit(#[trigger] s[i])
}

/// Value of a digit string, most significant digit first.
pub open spec fn dec_val(s: Seq<u8>) -> nat
    decreases s.len(),
{
    if s.len() == 0 {
        0
    } else {
        dec_val(s.drop_last()) * 10 + (s.last() - 48) as nat
    }
}

/// A well-formed unsigned decimal: at least one digit, digits only.
pub open spec fn is_dec(s: Seq<u8>) -> bool {
    s.len() > 0 && all_digits(s)
}

/// A well-formed signed decimal: an optional leading minus sign.
pub open spec fn is_sdec(s: Seq<u8>) -> bool {
    if s.len() > 0 && s[0] == 45 {
        is_dec(s.skip(1))
    } else {
        is_dec(s)
    }
}

/// Value of a signed decimal string.
pub open spec fn sdec_val(s: Seq<u8>) -> int {
    if s.len() > 0 && s[0] == 45 {
        -(dec_val(s.skip(1)) as int)
    } else {
        dec_val(s) as int
    }
}

/// Longer digit prefixes denote values at least as large.
proof fn lemma_dec_val_prefix_le(s: Seq<u8>, i: int, j: int)
    requires
        0 <= i <= j <= s.len(),
    ensures
        dec_val(s.subrange(0, i)) <= dec_val(s.subrange(0, j)),
    decreases j - i,
{
    if i < j {
        lemma_dec_val_prefix_le(s, i, j - 1);
        let sj = s.subrange(0, j);
        assert(sj.drop_last() =~= s.subrange(0, j - 1));
        let a = dec_val(s.subrange(0, j - 1));
        assert(dec_val(sj) == a * 10 + (sj.last() - 48) as nat);
        assert(a * 10 + (sj.last() - 48) as nat >= a) by (nonlinear_arith)
            requires
                a >= 0,
        ;
    }
}

/// Read an unsigned decimal. Returns the value exactly when the whole slice
/// is a digit string whose value fits in `u64`.
pub fn parse_u64(s: &[u8]) -> (r: Option<u64>)
    ensures
        match r {
            Some(v) => is_dec(s@) && v == dec_val(s@),
            None => !is_dec(s@) || dec_val(s@) > u64::MAX,
        },
{
    let n = s.len();
    if n == 0 {
        return None;
    }
    let mut v: u64 = 0;
    let mut i: usize = 0;
    while i < n
        invariant
            0 <= i <= n,
            n == s@.len(),
            all_digits(s@.subrange(0, i as int)),
            v == dec_val(s@.subrange(0, i as int)),
        decreases n - i,
    {
        let b = s[i];
        if b < 48 || b > 57 {
            assert(!is_digit(s@[i as int]));
            return None;
        }
        let d = b - 48;
        let w: u128 = (v as u128) * 10 + (d as u128);
        proof {
            assert(s@.subrange(0, i + 1).drop_last() =~= s@.subrange(0, i as int));
        }
        if w > u64::MAX as u128 {
            proof {
                lemma_dec_val_prefix_le(s@, i + 1, n as int);
                assert(s@.subrange(0, n as int) =~= s@);
            }
            return None;
        }
        v = w as u64;
        i = i + 1;
    }
    proof {
        assert(s@.subrange(0, n as int) =~= s@);
    }
    Some(v)
}

/// Read a signed decimal into `i64`. Returns the value exactly when the
/// slice is a well-formed signed decimal whose value fits.
pub fn parse_i64(s: &[u8]) -> (r: Option<i64>)
    ensures
        match r {
            Some(v) => is_sdec(s@) && v == sdec_val(s@),
            None => !is_sdec(s@) || sdec_val(s@) > i64::MAX || sdec_val(s@) < i64::MIN,
        },
{
    if s.len() > 0 && s[0] == 45 {
        let rest = slice_suffix(s, 1);
        match parse_u64(rest) {
            Some(v) => {
                if v <= 0x8000_0000_0000_0000u64 {
                    if v == 0x8000_0000_0000_0000u64 {
                        Some(i64::MIN)
                    } else {
                        Some(-(v as i64))
                    }
                } else {
                    None
                }
            },
            None => None,
        }
    } else {
        match parse_u64(s) {
            Some(v) => {
                if v <= i64::MAX as u64 {
                    Some(v as i64)
                } else {
                    None
                }
            },
            None => None,
        }
    }
}

/// Read a signed decimal into `i32`.
pub fn parse_i32(s: &[u8]) -> (r: Option<i32>)
    ensures
        match r {
            Some(v) => is_sdec(s@) && v == sdec_val(s@),
            None => !is_sdec(s@) || sdec_val(s@) > i32::MAX || sdec_val(s@) < i32::MIN,
        },
{
    match parse_i64(s) {
        Some(v) => {
            if i32::MIN as i64 <= v && v <= i32::MAX as i64 {
                Some(v as i32)
            } else {
                None
            }
        },
        None => None,
    }
}

/// Copy of `s[from..]`.
pub fn slice_suffix(s: &[u8], from: usize) -> (r: &[u8])
    requires
        from <= s@.len(),
    ensures
        r@ == s@.skip(from as int),
{
    let r = &s[from..s.len()];
    proof {
        assert(r@ =~= s@.skip(from as int));
    }
    r
}

/// Index of the first occurrence of `sep` in `s`, or `s.len()` if absent.
pub open spec fn first_sep(s: Seq<u8>, sep: u8) -> nat
    decreases s.len(),
{
    if s.len() == 0 {
        0
    } else if s[0] == sep {
        0
    } else {
        1 + first_sep(s.skip(1), sep)
    }
}

pub proof fn lemma_first_sep_props(s: Seq<u8>, sep: u8)
    ensures
        first_sep(s, sep) <= s.len(),
        first_sep(s, sep) < s.len() ==> s[first_sep(s, sep) as int] == sep,
        forall|j: int| 0 <= j < first_sep(s, sep) ==> s[j] != sep,
    decreases s.len(),
{
    if s.len() > 0 && s[0] != sep {
        lemma_first_sep_props(s.skip(1), sep);
        let i = first_sep(s, sep);
        assert forall|j: int| 0 <= j < i implies s[j] != sep by {
            if j > 0 {
                assert(s.skip(1)[j - 1] != sep);
            }
        }
    }
}

/// Splitting at a separator byte: the fields, in order, never containing the
/// separator; splitting the empty string gives one empty field.
pub open spec fn spec_split(s: Seq<u8>, sep: u8) -> Seq<Seq<u8>>
    decreases s.len(),
{
    let i = first_sep(s, sep);
    if i < s.len() {
        seq![s.subrange(0, i as int)] + spec_split(s.skip(i + 1int), sep)
    } else {
        seq![s]
    }
}

/// The views of a sequence of owned byte fields.
pub open spec fn views(vs: Seq<Vec<u8>>) -> Seq<Seq<u8>> {
    vs.map_values(|v: Vec<u8>| v@)
}

/// Split `s` at `sep`, returning owned fields.
pub fn split_bytes(s: &[u8], sep: u8) -> (r: Vec<Vec<u8>>)
    ensures
        views(r@) == spec_split(s@, sep),
{
    let n = s.len();
    let mut out: Vec<Vec<u8>> = Vec::new();
    let mut field: Vec<u8> = Vec::new();
    let mut start: usize = 0;
    let mut i: usize = 0;
    proof {
        assert(s@.skip(0) =~= s@);
        assert(field@ =~= s@.subrange(0, 0));
        assert(views(out@) =~= Seq::<Seq<u8>>::empty());
    }
    while i < n
        invariant
            start <= i <= n,
            n == s@.len(),
            field@ == s@.subrange(start as int, i as int),
            forall|j: int| start <= j < i ==> s@[j] != sep,
            spec_split(s@, sep) == views(out@) + spec_split(s@.skip(start as int), sep),
        decreases n - i,
    {
        let b = s[i];
        if b == sep {
            proof {
                let tail = s@.skip(start as int);
                let fi = i - start;
                assert(tail[fi] == sep);
                assert(forall|j: int| 0 <= j < fi ==> tail[j] != sep);
                lemma_first_sep_props(tail, sep);
                let f0 = first_sep(tail, sep) as int;
                if f0 < fi {
                    assert(tail[f0] != sep);
                }
                if fi < f0 {
                    assert(tail[fi] != sep);
                }
                assert(f0 == fi);
                assert(tail.subrange(0, fi) =~= s@.subrange(start as int, i as int));
                assert(tail.skip(fi + 1) =~= s@.skip(i + 1));
            }
            let ghost dv0 = views(out@);
            let ghost fv = field@;
            out.push(field);
            proof {
                assert(views(out@) =~= dv0.push(fv));
                assert(dv0.push(fv) =~= dv0 + seq![fv]);
                assert((dv0 + seq![fv]) + spec_split(s@.skip(i + 1), sep) =~= dv0 + (seq![fv]
                    + spec_split(s@.skip(i + 1), sep)));
            }
            field = Vec::new();
            start = i + 1;
            proof {
                assert(field@ =~= s@.subrange(start as int, start as int));
            }
        } else {
            field.push(b);
            proof {
                assert(field@ =~= s@.subrange(start as int, i + 1));
            }
        }
        i = i + 1;
    }
    proof {
        let tail = s@.skip(start as int);
        assert forall|j: int| 0 <= j < tail.len() implies tail[j] != sep by {
            assert(tail[j] == s@[start + j]);
        }
        lemma_first_sep_props(tail, sep);
        if first_sep(tail, sep) < tail.len() {
            assert(tail[first_sep(tail, sep) as int] != sep);
        }
        assert(first_sep(tail, sep) == tail.len());
        assert(spec_split(tail, sep) == seq![tail]);
        assert(field@ == tail);
    }
    let ghost dv0 = views(out@);
    let ghost fv = field@;
    out.push(field);
    proof {
        assert(views(out@) =~= dv0.push(fv));
        assert(dv0.push(fv) =~= dv0 + seq![fv]);
    }
    out
}

} // verus!
