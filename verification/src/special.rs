//! The special-comment parameter parser: the content of a scripted comment is
//! itself a comma-separated encoding of its animation.
//!
//! Field layout, by position: `start_x, start_y, end_x, end_y, duration`
//! (required), then optionally `rot_y, rot_z`, then optionally a keyframe
//! count `n` followed by `n` triples `fraction, x, y` (fractions fixed-point
//! with `FRAC_ONE` = 1.0, non-decreasing; `n` is 0 or at least 2 since the
//! first and last keyframe are forced to fractions 0 and 1), then optionally
//! a font-family name and a border toggle. Extra fields are ignored. A
//! stationary descriptor (start equal to end, no rotation, no keyframes) is
//! accepted.

use vstd::prelude::*;
use crate::comment::{Animation, Keyframe, FRAC_ONE, MAX_TIME, keyframes_wf};
use crate::error::DanmakuError;
use crate::text::{is_dec, is_sdec, dec_val, sdec_val, spec_split, split_bytes, views, parse_u64,
    parse_i32};

verus! {

/// A field that must hold an `i32`.
pub open spec fn field_i32(f: Seq<u8>) -> bool {
    is_sdec(f) && i32::MIN <= sdec_val(f) <= i32::MAX
}

/// The `k`-th declared keyframe triple is well-formed.
pub open spec fn triple_ok(fs: Seq<Seq<u8>>, k: int) -> bool {
    &&& is_dec(fs[8 + 3 * k]) && dec_val(fs[8 + 3 * k]) <= FRAC_ONE
    &&& field_i32(fs[8 + 3 * k + 1])
    &&& field_i32(fs[8 + 3 * k + 2])
}

/// Whether a comma-split parameter list is syntactically acceptable.
pub open spec fn special_fields_ok(fs: Seq<Seq<u8>>) -> bool {
    &&& fs.len() >= 5
    &&& field_i32(fs[0])
    &&& field_i32(fs[1])
    &&& field_i32(fs[2])
    &&& field_i32(fs[3])
    &&& is_dec(fs[4]) && 0 < dec_val(fs[4]) <= MAX_TIME
    &&& fs.len() >= 6 ==> field_i32(fs[5])
    &&& fs.len() >= 7 ==> field_i32(fs[6])
    &&& fs.len() >= 8 ==> {
        let n = dec_val(fs[7]) as int;
        &&& is_dec(fs[7])
        &&& (n == 0 || n >= 2)
        &&& fs.len() >= 8 + 3 * n
        &&& forall|k: int| 0 <= k < n ==> triple_ok(fs, k)
        &&& forall|k: int|
            0 <= k < n - 1 ==> dec_val(#[trigger] fs[8 + 3 * k]) <= dec_val(fs[8 + 3 * (k + 1)])
        &&& fs.len() >= 8 + 3 * n + 2 ==> is_dec(fs[8 + 3 * n + 1]) && dec_val(fs[8 + 3 * n + 1])
            <= u64::MAX
    }
}

/// Number of declared keyframes.
pub open spec fn spec_kf_count(fs: Seq<Seq<u8>>) -> int {
    if fs.len() >= 8 {
        dec_val(fs[7]) as int
    } else {
        0
    }
}

/// The keyframe the parser produces for position `i`: declared values with
/// the first fraction forced to 0 and the last to `FRAC_ONE`.
pub open spec fn spec_keyframe(fs: Seq<Seq<u8>>, i: int) -> Keyframe {
    let n = spec_kf_count(fs);
    Keyframe {
        fraction: if i == 0 {
            0
        } else if i == n - 1 {
            FRAC_ONE
        } else {
            dec_val(fs[8 + 3 * i]) as u32
        },
        x: sdec_val(fs[8 + 3 * i + 1]) as i32,
        y: sdec_val(fs[8 + 3 * i + 2]) as i32,
    }
}

/// The animation an acceptable parameter list denotes.
pub open spec fn matches_fields(a: Animation, fs: Seq<Seq<u8>>) -> bool {
    let n = spec_kf_count(fs);
    &&& a.start_x == sdec_val(fs[0])
    &&& a.start_y == sdec_val(fs[1])
    &&& a.end_x == sdec_val(fs[2])
    &&& a.end_y == sdec_val(fs[3])
    &&& a.duration == dec_val(fs[4])
    &&& a.rot_y == if fs.len() >= 6 {
        sdec_val(fs[5])
    } else {
        0
    }
    &&& a.rot_z == if fs.len() >= 7 {
        sdec_val(fs[6])
    } else {
        0
    }
    &&& a.keyframes@.len() == n
    &&& forall|i: int| 0 <= i < n ==> #[trigger] a.keyframes@[i] == spec_keyframe(fs, i)
    &&& font_view(a.font_family) == if fs.len() >= 8 + 3 * n + 1 && fs[8 + 3 * n].len() > 0 {
        Some(fs[8 + 3 * n])
    } else {
        None::<Seq<u8>>
    }
    &&& a.border == (fs.len() >= 8 + 3 * n + 2 && dec_val(fs[8 + 3 * n + 1]) != 0)
}

/// `font_family` compared at the view level.
pub open spec fn font_view(f: Option<Vec<u8>>) -> Option<Seq<u8>> {
    match f {
        Some(v) => Some(v@),
        None => None,
    }
}

/// Adjacent non-decreasing fractions are pairwise non-decreasing.
proof fn lemma_adjacent_nondecreasing(ks: Seq<Keyframe>, i: int, j: int)
    requires
        forall|k: int|
            0 <= k < ks.len() - 1 ==> (#[trigger] ks[k].fraction) <= ks[k + 1].fraction,
        0 <= i <= j < ks.len(),
    ensures
        ks[i].fraction <= ks[j].fraction,
    decreases j - i,
{
    if i < j {
        lemma_adjacent_nondecreasing(ks, i, j - 1);
        assert(ks[j - 1].fraction <= ks[j].fraction);
    }
}

/// Owned copy of a byte slice.
pub fn copy_bytes(s: &[u8]) -> (r: Vec<u8>)
    ensures
        r@ == s@,
{
    let n = s.len();
    let mut out: Vec<u8> = Vec::new();
    let mut i: usize = 0;
    while i < n
        invariant
            i <= n,
            n == s@.len(),
            out@ == s@.subrange(0, i as int),
        decreases n - i,
    {
        out.push(s[i]);
        proof {
            assert(out@ =~= s@.subrange(0, i + 1));
        }
        i = i + 1;
    }
    proof {
        assert(out@ =~= s@);
    }
    out
}

/// Parse the parameter string of a scripted comment.
///
/// Succeeds exactly on syntactically acceptable parameter lists; every
/// failure is a `SpecialCommentSyntax` error carrying the raw string, and the
/// produced animation is well-formed with the fractions of its keyframes
/// non-decreasing and spanning exactly [0, 1].
pub fn parse_special(content: &[u8]) -> (r: Result<Animation, DanmakuError>)
    ensures
        match r {
            Ok(a) => {
                let fs = spec_split(content@, 44);
                &&& special_fields_ok(fs)
                &&& matches_fields(a, fs)
                &&& a.wf()
            },
            Err(e) => {
                &&& !special_fields_ok(spec_split(content@, 44))
                &&& e matches DanmakuError::SpecialCommentSyntax { raw } && raw@ == content@
            },
        },
        r is Ok <==> special_fields_ok(spec_split(content@, 44)),
{
    let fields = split_bytes(content, 44);
    let nf = fields.len();
    let ghost fs = spec_split(content@, 44);
    proof {
        assert(views(fields@) == fs);
        assert(forall|i: int| 0 <= i < fields@.len() ==> views(fields@)[i] == #[trigger] fields@[i]@);
    }
    if nf < 5 {
        return Err(DanmakuError::SpecialCommentSyntax { raw: copy_bytes(content) });
    }
    let sx = match parse_i32(&fields[0]) {
        Some(v) => v,
        None => {
            return Err(DanmakuError::SpecialCommentSyntax { raw: copy_bytes(content) });
        },
    };
    let sy = match parse_i32(&fields[1]) {
        Some(v) => v,
        None => {
            return Err(DanmakuError::SpecialCommentSyntax { raw: copy_bytes(content) });
        },
    };
    let ex = match parse_i32(&fields[2]) {
        Some(v) => v,
        None => {
            return Err(DanmakuError::SpecialCommentSyntax { raw: copy_bytes(content) });
        },
    };
    let ey = match parse_i32(&fields[3]) {
        Some(v) => v,
        None => {
            return Err(DanmakuError::SpecialCommentSyntax { raw: copy_bytes(content) });
        },
    };
    let dur = match parse_u64(&fields[4]) {
        Some(v) => v,
        None => {
            return Err(DanmakuError::SpecialCommentSyntax { raw: copy_bytes(content) });
        },
    };
    if dur == 0 || dur > MAX_TIME {
        return Err(DanmakuError::SpecialCommentSyntax { raw: copy_bytes(content) });
    }
    let rot_y = if nf >= 6 {
        match parse_i32(&fields[5]) {
            Some(v) => v,
            None => {
                return Err(DanmakuError::SpecialCommentSyntax { raw: copy_bytes(content) });
            },
        }
    } else {
        0
    };
    let rot_z = if nf >= 7 {
        match parse_i32(&fields[6]) {
            Some(v) => v,
            None => {
                return Err(DanmakuError::SpecialCommentSyntax { raw: copy_bytes(content) });
            },
        }
    } else {
        0
    };
    let mut keyframes: Vec<Keyframe> = Vec::new();
    let mut n: u64 = 0;
    if nf >= 8 {
        n = match parse_u64(&fields[7]) {
            Some(v) => v,
            None => {
                return Err(DanmakuError::SpecialCommentSyntax { raw: copy_bytes(content) });
            },
        };
        if n == 1 {
            return Err(DanmakuError::SpecialCommentSyntax { raw: copy_bytes(content) });
        }
        if 8 + 3 * (n as u128) > nf as u128 {
            return Err(DanmakuError::SpecialCommentSyntax { raw: copy_bytes(content) });
        }
        proof {
            assert(n <= usize::MAX as u64);
        }
        let nn = n as usize;
        let mut k: usize = 0;
        while k < nn
            invariant
                k <= nn,
                nn == n,
                n == 0 || n >= 2,
                nf == fields@.len(),
                8 + 3 * nn <= nf,
                fs == spec_split(content@, 44),
                views(fields@) == fs,
                fs.len() == nf,
                is_dec(fs[7]),
                n == dec_val(fs[7]),
                keyframes@.len() == k,
                forall|i: int| 0 <= i < k ==> triple_ok(fs, i),
                forall|i: int|
                    0 <= i < k ==> (#[trigger] keyframes@[i]) == (Keyframe {
                        fraction: dec_val(fs[8 + 3 * i]) as u32,
                        x: sdec_val(fs[8 + 3 * i + 1]) as i32,
                        y: sdec_val(fs[8 + 3 * i + 2]) as i32,
                    }),
                forall|i: int|
                    0 <= i < k - 1 ==> dec_val(#[trigger] fs[8 + 3 * i]) <= dec_val(
                        fs[8 + 3 * (i + 1)],
                    ),
            decreases nn - k,
        {
            proof {
                assert(forall|i: int|
                    0 <= i < fields@.len() ==> views(fields@)[i] == #[trigger] fields@[i]@);
            }
            let frac = match parse_u64(&fields[8 + 3 * k]) {
                Some(v) => v,
                None => {
                    assert(!triple_ok(fs, k as int));
                    return Err(DanmakuError::SpecialCommentSyntax { raw: copy_bytes(content) });
                },
            };
            if frac > FRAC_ONE as u64 {
                assert(!triple_ok(fs, k as int));
                return Err(DanmakuError::SpecialCommentSyntax { raw: copy_bytes(content) });
            }
            let x = match parse_i32(&fields[8 + 3 * k + 1]) {
                Some(v) => v,
                None => {
                    assert(!triple_ok(fs, k as int));
                    return Err(DanmakuError::SpecialCommentSyntax { raw: copy_bytes(content) });
                },
            };
            let y = match parse_i32(&fields[8 + 3 * k + 2]) {
                Some(v) => v,
                None => {
                    assert(!triple_ok(fs, k as int));
                    return Err(DanmakuError::SpecialCommentSyntax { raw: copy_bytes(content) });
                },
            };
            if k > 0 {
                let prev = keyframes[k - 1].fraction;
                proof {
                    assert(triple_ok(fs, k - 1));
                    assert(prev == dec_val(fs[8 + 3 * (k - 1)]) as u32);
                    assert(dec_val(fs[8 + 3 * (k - 1)]) <= FRAC_ONE);
                }
                if (frac as u32) < prev {
                    assert(dec_val(fs[8 + 3 * (k - 1)]) > dec_val(fs[8 + 3 * (k - 1 + 1)]));
                    return Err(DanmakuError::SpecialCommentSyntax { raw: copy_bytes(content) });
                }
                proof {
                    assert(dec_val(fs[8 + 3 * (k - 1)]) <= dec_val(fs[8 + 3 * (k as int)]));
                }
            }
            keyframes.push(Keyframe { fraction: frac as u32, x, y });
            proof {
                assert(keyframes@[k as int] == (Keyframe {
                    fraction: dec_val(fs[8 + 3 * (k as int)]) as u32,
                    x: sdec_val(fs[8 + 3 * (k as int) + 1]) as i32,
                    y: sdec_val(fs[8 + 3 * (k as int) + 2]) as i32,
                }));
            }
            k = k + 1;
        }
    }
    let ghost declared = keyframes@;
    let nn = n as usize;
    let idx_font: usize = if nf >= 8 {
        proof {
            assert(8 + 3 * nn <= nf);
        }
        8 + 3 * nn
    } else {
        8
    };
    let font_family: Option<Vec<u8>> = if nf > idx_font && fields[idx_font].len() > 0 {
        Some(copy_bytes(&fields[idx_font]))
    } else {
        None
    };
    let border: bool = if nf > idx_font && nf - idx_font >= 2 {
        match parse_u64(&fields[idx_font + 1]) {
            Some(v) => v != 0,
            None => {
                return Err(DanmakuError::SpecialCommentSyntax { raw: copy_bytes(content) });
            },
        }
    } else {
        false
    };
    if n > 0 {
        let last = keyframes.len() - 1;
        let k0 = keyframes[0];
        keyframes.set(0, Keyframe { fraction: 0, ..k0 });
        let kl = keyframes[last];
        keyframes.set(last, Keyframe { fraction: FRAC_ONE, ..kl });
    }
    let a = Animation {
        start_x: sx,
        start_y: sy,
        end_x: ex,
        end_y: ey,
        duration: dur,
        rot_y,
        rot_z,
        keyframes,
        font_family,
        border,
    };
    proof {
        let ks = a.keyframes@;
        let ni = n as int;
        if n > 0 {
            assert(ks.len() == ni);
            assert forall|i: int| 0 <= i < ni implies #[trigger] ks[i] == spec_keyframe(fs, i) by {
                assert(triple_ok(fs, i));
                assert(declared[i] == (Keyframe {
                    fraction: dec_val(fs[8 + 3 * i]) as u32,
                    x: sdec_val(fs[8 + 3 * i + 1]) as i32,
                    y: sdec_val(fs[8 + 3 * i + 2]) as i32,
                }));
                if i == 0 {
                    assert(ks[i].fraction == 0);
                } else if i == ni - 1 {
                    assert(ks[i].fraction == FRAC_ONE);
                } else {
                    assert(ks[i] == declared[i]);
                }
            }
            assert forall|kk: int| 0 <= kk < ni - 1 implies (#[trigger] ks[kk].fraction)
                <= ks[kk + 1].fraction by {
                assert(triple_ok(fs, kk));
                assert(triple_ok(fs, kk + 1));
                if 0 < kk && kk + 1 < ni - 1 {
                    assert(dec_val(fs[8 + 3 * kk]) <= dec_val(fs[8 + 3 * (kk + 1)]));
                }
                assert(dec_val(fs[8 + 3 * (kk + 1)]) <= FRAC_ONE);
            }
            assert forall|i: int, j: int| 0 <= i <= j < ks.len() implies ks[i].fraction
                <= ks[j].fraction by {
                lemma_adjacent_nondecreasing(ks, i, j);
            }
            assert(keyframes_wf(ks));
        } else {
            assert(ks.len() == 0);
            assert(keyframes_wf(ks));
        }
        assert(matches_fields(a, fs));
        assert(special_fields_ok(fs));
    }
    Ok(a)
}


} // verus!
