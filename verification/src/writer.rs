//! The event writer: exact, byte-for-byte rendering of one laid-out comment
//! into one subtitle event, and of the track header. Also the text escaping
//! rules (backslash, braces, newline) and their inverse, with the round-trip
//! law that re-decoding an escaped payload recovers it exactly.

use vstd::prelude::*;
use crate::comment::{Comment, Config, Keyframe, MotionClass};

verus! {

// ---------------------------------------------------------------------------
// Escaping. Reserved bytes: backslash starts control sequences, braces open
// and close override blocks, and a literal newline would break the line-based
// format; each is written as a two-byte sequence starting with a backslash.
// ---------------------------------------------------------------------------

pub open spec fn esc_byte(b: u8) -> Seq<u8> {
    if b == 0x5C {
        seq![0x5Cu8, 0x5Cu8]
    } else if b == 0x0A {
        seq![0x5Cu8, 0x4Eu8]
    } else if b == 0x7B {
        seq![0x5Cu8, 0x7Bu8]
    } else if b == 0x7D {
        seq![0x5Cu8, 0x7Du8]
    } else {
        seq![b]
    }
}

pub open spec fn spec_escape(s: Seq<u8>) -> Seq<u8>
    decreases s.len(),
{
    if s.len() == 0 {
        Seq::empty()
    } else {
        esc_byte(s[0]) + spec_escape(s.skip(1))
    }
}

pub open spec fn unesc_byte(b: u8) -> Option<u8> {
    if b == 0x5C {
        Some(0x5Cu8)
    } else if b == 0x4E {
        Some(0x0Au8)
    } else if b == 0x7B {
        Some(0x7Bu8)
    } else if b == 0x7D {
        Some(0x7Du8)
    } else {
        None
    }
}

pub open spec fn spec_unescape(s: Seq<u8>) -> Option<Seq<u8>>
    decreases s.len(),
{
    if s.len() == 0 {
        Some(Seq::empty())
    } else if s[0] == 0x5C {
        if s.len() < 2 {
            None
        } else {
            match unesc_byte(s[1]) {
                Some(b) => match spec_unescape(s.skip(2)) {
                    Some(r) => Some(seq![b] + r),
                    None => None,
                },
                None => None,
            }
        }
    } else {
        match spec_unescape(s.skip(1)) {
            Some(r) => Some(seq![s[0]] + r),
            None => None,
        }
    }
}

/// Escaping then un-escaping recovers every payload exactly.
pub proof fn lemma_escape_roundtrip(s: Seq<u8>)
    ensures
        spec_unescape(spec_escape(s)) == Some(s),
    decreases s.len(),
{
    if s.len() == 0 {
    } else {
        lemma_escape_roundtrip(s.skip(1));
        let e = spec_escape(s);
        let b = s[0];
        if b == 0x5C || b == 0x0A || b == 0x7B || b == 0x7D {
            assert(e[0] == 0x5C);
            assert(e.len() >= 2);
            assert(unesc_byte(e[1]) == Some(b));
            assert(e.skip(2) =~= spec_escape(s.skip(1)));
            assert(seq![b] + s.skip(1) =~= s);
        } else {
            assert(e[0] == b && b != 0x5C);
            assert(e.skip(1) =~= spec_escape(s.skip(1)));
            assert(seq![b] + s.skip(1) =~= s);
        }
    }
}

/// Escaping distributes over concatenation.
pub proof fn lemma_escape_append(a: Seq<u8>, b: Seq<u8>)
    ensures
        spec_escape(a + b) == spec_escape(a) + spec_escape(b),
    decreases a.len(),
{
    if a.len() == 0 {
        assert(a + b =~= b);
        assert(spec_escape(a) + spec_escape(b) =~= spec_escape(b));
    } else {
        lemma_escape_append(a.skip(1), b);
        assert((a + b).skip(1) =~= a.skip(1) + b);
        assert((a + b)[0] == a[0]);
        assert(spec_escape(a + b) =~= spec_escape(a) + spec_escape(b));
    }
}

/// Escape a text payload.
pub fn escape_text(s: &[u8]) -> (r: Vec<u8>)
    ensures
        r@ == spec_escape(s@),
{
    let n = s.len();
    let mut out: Vec<u8> = Vec::new();
    let mut i: usize = 0;
    proof {
        assert(out@ =~= spec_escape(s@.subrange(0, 0)));
    }
    while i < n
        invariant
            i <= n,
            n == s@.len(),
            out@ == spec_escape(s@.subrange(0, i as int)),
        decreases n - i,
    {
        let ghost pre = out@;
        let b = s[i];
        if b == 0x5C {
            out.push(0x5C);
            out.push(0x5C);
        } else if b == 0x0A {
            out.push(0x5C);
            out.push(0x4E);
        } else if b == 0x7B {
            out.push(0x5C);
            out.push(0x7B);
        } else if b == 0x7D {
            out.push(0x5C);
            out.push(0x7D);
        } else {
            out.push(b);
        }
        proof {
            lemma_escape_append(s@.subrange(0, i as int), seq![s@[i as int]]);
            assert(s@.subrange(0, i as int) + seq![s@[i as int]] =~= s@.subrange(0, i + 1));
            assert(seq![s@[i as int]].skip(1) =~= Seq::<u8>::empty());
            assert(spec_escape(Seq::<u8>::empty()) == Seq::<u8>::empty());
            assert(esc_byte(s@[i as int]) + Seq::<u8>::empty() =~= esc_byte(s@[i as int]));
            assert(spec_escape(seq![s@[i as int]]) =~= esc_byte(s@[i as int]));
            assert(out@ =~= pre + esc_byte(s@[i as int]));
        }
        i = i + 1;
    }
    proof {
        assert(s@.subrange(0, n as int) =~= s@);
    }
    out
}

/// Invert the escaping; `None` on a dangling backslash or unknown escape.
pub fn unescape_text(s: &[u8]) -> (r: Option<Vec<u8>>)
    ensures
        match r {
            Some(v) => spec_unescape(s@) == Some(v@),
            None => spec_unescape(s@) is None,
        },
{
    let n = s.len();
    let mut out: Vec<u8> = Vec::new();
    let mut i: usize = 0;
    proof {
        assert(s@.skip(0) =~= s@);
        if spec_unescape(s@) is Some {
            let r0 = spec_unescape(s@)->Some_0;
            assert(Seq::<u8>::empty() + r0 =~= r0);
        }
    }
    while i < n
        invariant
            i <= n,
            n == s@.len(),
            spec_unescape(s@) == (match spec_unescape(s@.skip(i as int)) {
                Some(r) => Some(out@ + r),
                None => None::<Seq<u8>>,
            }),
        decreases n - i,
    {
        let ghost pre = out@;
        let ghost tail = s@.skip(i as int);
        let b = s[i];
        if b == 0x5C {
            if i + 1 >= n {
                assert(spec_unescape(tail) is None);
                return None;
            }
            let c = s[i + 1];
            let d: u8 = if c == 0x5C {
                0x5C
            } else if c == 0x4E {
                0x0A
            } else if c == 0x7B {
                0x7B
            } else if c == 0x7D {
                0x7D
            } else {
                assert(unesc_byte(tail[1]) is None);
                assert(spec_unescape(tail) is None);
                return None;
            };
            proof {
                assert(tail[0] == 0x5C && tail[1] == c);
                assert(unesc_byte(tail[1]) == Some(d));
                assert(tail.skip(2) =~= s@.skip(i + 2));
            }
            out.push(d);
            proof {
                let t2 = s@.skip(i + 2);
                if spec_unescape(t2) is Some {
                    let r = spec_unescape(t2)->Some_0;
                    assert(pre + (seq![d] + r) =~= out@ + r);
                }
            }
            i = i + 2;
        } else {
            proof {
                assert(tail[0] == b && b != 0x5C);
                assert(tail.skip(1) =~= s@.skip(i + 1));
            }
            out.push(b);
            proof {
                let t1 = s@.skip(i + 1);
                if spec_unescape(t1) is Some {
                    let r = spec_unescape(t1)->Some_0;
                    assert(pre + (seq![b] + r) =~= out@ + r);
                }
            }
            i = i + 1;
        }
    }
    proof {
        assert(s@.skip(n as int) =~= Seq::<u8>::empty());
        assert(out@ + Seq::<u8>::empty() =~= out@);
    }
    Some(out)
}

// ---------------------------------------------------------------------------
// Decimal, two-digit, and hexadecimal rendering.
// ---------------------------------------------------------------------------

/// Decimal digits of `n`, most significant first.
pub open spec fn spec_dec(n: nat) -> Seq<u8>
    decreases n,
{
    if n < 10 {
        seq![(48 + n) as u8]
    } else {
        spec_dec(n / 10) + seq![(48 + n % 10) as u8]
    }
}

/// Signed decimal rendering.
pub open spec fn spec_sdec_out(v: int) -> Seq<u8> {
    if v < 0 {
        seq![45u8] + spec_dec((-v) as nat)
    } else {
        spec_dec(v as nat)
    }
}

pub open spec fn spec_2dig(n: nat) -> Seq<u8> {
    seq![(48 + n / 10) as u8, (48 + n % 10) as u8]
}

pub open spec fn spec_hexdig(d: nat) -> u8 {
    if d < 10 {
        (48 + d) as u8
    } else {
        (55 + d) as u8
    }
}

pub open spec fn spec_hex2(n: nat) -> Seq<u8> {
    seq![spec_hexdig(n / 16), spec_hexdig(n % 16)]
}

/// Packed-RGB colour rendered blue-green-red, as the output format expects.
pub open spec fn spec_color_bgr(c: nat) -> Seq<u8> {
    spec_hex2(c % 256) + spec_hex2((c / 256) % 256) + spec_hex2(c / 65536)
}

pub fn write_u64(n: u64, out: &mut Vec<u8>)
    ensures
        final(out)@ == old(out)@ + spec_dec(n as nat),
    decreases n,
{
    if n < 10 {
        out.push(48 + n as u8);
        proof {
            assert(out@ =~= old(out)@ + spec_dec(n as nat));
        }
    } else {
        proof {
            assert(n / 10 < n) by (nonlinear_arith)
                requires
                    n >= 10,
            ;
        }
        write_u64(n / 10, out);
        out.push(48 + (n % 10) as u8);
        proof {
            assert(out@ =~= old(out)@ + spec_dec(n as nat));
        }
    }
}

pub fn write_i32(v: i32, out: &mut Vec<u8>)
    ensures
        final(out)@ == old(out)@ + spec_sdec_out(v as int),
{
    if v < 0 {
        out.push(45);
        let mag: u64 = (-(v as i64)) as u64;
        proof {
            assert(mag == -(v as int));
        }
        write_u64(mag, out);
        proof {
            assert(out@ =~= old(out)@ + spec_sdec_out(v as int));
        }
    } else {
        write_u64(v as u64, out);
    }
}

pub fn write_2dig(n: u64, out: &mut Vec<u8>)
    requires
        n < 100,
    ensures
        final(out)@ == old(out)@ + spec_2dig(n as nat),
{
    out.push(48 + (n / 10) as u8);
    out.push(48 + (n % 10) as u8);
    proof {
        assert(out@ =~= old(out)@ + spec_2dig(n as nat));
    }
}

fn hexdig(d: u32) -> (r: u8)
    requires
        d < 16,
    ensures
        r == spec_hexdig(d as nat),
{
    if d < 10 {
        48 + d as u8
    } else {
        55 + d as u8
    }
}

pub fn write_hex2(n: u32, out: &mut Vec<u8>)
    requires
        n < 256,
    ensures
        final(out)@ == old(out)@ + spec_hex2(n as nat),
{
    let a = hexdig(n / 16);
    let b = hexdig(n % 16);
    out.push(a);
    out.push(b);
    proof {
        assert(out@ =~= old(out)@ + spec_hex2(n as nat));
    }
}

pub fn write_color(c: u32, out: &mut Vec<u8>)
    requires
        c <= 0xFF_FF_FF,
    ensures
        final(out)@ == old(out)@ + spec_color_bgr(c as nat),
{
    let ghost pre = out@;
    write_hex2(c % 256, out);
    write_hex2((c / 256) % 256, out);
    write_hex2(c / 65536, out);
    proof {
        assert(out@ =~= pre + spec_color_bgr(c as nat));
    }
}

/// Timestamp `h:mm:ss.cc` from a time in centiseconds.
pub open spec fn spec_timestamp(t: nat) -> Seq<u8> {
    spec_dec(t / 360000) + seq![58u8] + spec_2dig((t / 6000) % 60) + seq![58u8] + spec_2dig(
        (t / 100) % 60,
    ) + seq![46u8] + spec_2dig(t % 100)
}

pub fn write_timestamp(t: u64, out: &mut Vec<u8>)
    ensures
        final(out)@ == old(out)@ + spec_timestamp(t as nat),
{
    let ghost pre = out@;
    write_u64(t / 360000, out);
    out.push(58);
    write_2dig((t / 6000) % 60, out);
    out.push(58);
    write_2dig((t / 100) % 60, out);
    out.push(46);
    write_2dig(t % 100, out);
    proof {
        assert(out@ =~= pre + spec_timestamp(t as nat));
    }
}

// ---------------------------------------------------------------------------
// Literal fragments of the output format.
// ---------------------------------------------------------------------------

pub open spec fn lit_h1() -> Seq<u8> {
    seq![91u8, 83, 99, 114, 105, 112, 116, 32, 73, 110, 102, 111, 93, 10, 83, 99, 114, 105, 112, 116, 84, 121, 112, 101, 58, 32, 118, 52, 46, 48, 48, 43, 10, 80, 108, 97, 121, 82, 101, 115, 88, 58, 32]
}

#[verifier::rlimit(60)]
fn put_h1(out: &mut Vec<u8>)
    ensures
        final(out)@ == old(out)@ + lit_h1(),
{
    out.push(91);
    out.push(83);
    out.push(99);
    out.push(114);
    out.push(105);
    out.push(112);
    out.push(116);
    out.push(32);
    out.push(73);
    out.push(110);
    out.push(102);
    out.push(111);
    out.push(93);
    out.push(10);
    out.push(83);
    out.push(99);
    out.push(114);
    out.push(105);
    out.push(112);
    out.push(116);
    out.push(84);
    out.push(121);
    out.push(112);
    out.push(101);
    out.push(58);
    out.push(32);
    out.push(118);
    out.push(52);
    out.push(46);
    out.push(48);
    out.push(48);
    out.push(43);
    out.push(10);
    out.push(80);
    out.push(108);
    out.push(97);
    out.push(121);
    out.push(82);
    out.push(101);
    out.push(115);
    out.push(88);
    out.push(58);
    out.push(32);
    proof {
        assert(out@ =~= old(out)@ + lit_h1());
    }
}

pub open spec fn lit_h2() -> Seq<u8> {
    seq![10u8, 80, 108, 97, 121, 82, 101, 115, 89, 58, 32]
}

fn put_h2(out: &mut Vec<u8>)
    ensures
        final(out)@ == old(out)@ + lit_h2(),
{
    out.push(10);
    out.push(80);
    out.push(108);
    out.push(97);
    out.push(121);
    out.push(82);
    out.push(101);
    out.push(115);
    out.push(89);
    out.push(58);
    out.push(32);
    proof {
        assert(out@ =~= old(out)@ + lit_h2());
    }
}

pub open spec fn lit_h3() -> Seq<u8> {
    seq![10u8, 10, 91, 69, 118, 101, 110, 116, 115, 93, 10]
}

#[verifier::rlimit(60)]
fn put_h3(out: &mut Vec<u8>)
    ensures
        final(out)@ == old(out)@ + lit_h3(),
{
    out.push(10);
    out.push(10);
    out.push(91);
    out.push(69);
    out.push(118);
    out.push(101);
    out.push(110);
    out.push(116);
    out.push(115);
    out.push(93);
    out.push(10);
    proof {
        assert(out@ =~= old(out)@ + lit_h3());
    }
}

pub open spec fn lit_dlg() -> Seq<u8> {
    seq![68u8, 105, 97, 108, 111, 103, 117, 101, 58, 32, 48, 44]
}

#[verifier::rlimit(60)]
fn put_dlg(out: &mut Vec<u8>)
    ensures
        final(out)@ == old(out)@ + lit_dlg(),
{
    out.push(68);
    out.push(105);
    out.push(97);
    out.push(108);
    out.push(111);
    out.push(103);
    out.push(117);
    out.push(101);
    out.push(58);
    out.push(32);
    out.push(48);
    out.push(44);
    proof {
        assert(out@ =~= old(out)@ + lit_dlg());
    }
}

pub open spec fn lit_comma() -> Seq<u8> {
    seq![44u8]
}

fn put_comma(out: &mut Vec<u8>)
    ensures
        final(out)@ == old(out)@ + lit_comma(),
{
    out.push(44);
    proof {
        assert(out@ =~= old(out)@ + lit_comma());
    }
}

pub open spec fn lit_style() -> Seq<u8> {
    seq![44u8, 68, 97, 110, 109, 97, 107, 117, 44, 44, 48, 48, 48, 48, 44, 48, 48, 48, 48, 44, 48, 48, 48, 48, 44, 44]
}

#[verifier::rlimit(60)]
fn put_style(out: &mut Vec<u8>)
    ensures
        final(out)@ == old(out)@ + lit_style(),
{
    out.push(44);
    out.push(68);
    out.push(97);
    out.push(110);
    out.push(109);
    out.push(97);
    out.push(107);
    out.push(117);
    out.push(44);
    out.push(44);
    out.push(48);
    out.push(48);
    out.push(48);
    out.push(48);
    out.push(44);
    out.push(48);
    out.push(48);
    out.push(48);
    out.push(48);
    out.push(44);
    out.push(48);
    out.push(48);
    out.push(48);
    out.push(48);
    out.push(44);
    out.push(44);
    proof {
        assert(out@ =~= old(out)@ + lit_style());
    }
}

pub open spec fn lit_nl() -> Seq<u8> {
    seq![10u8]
}

fn put_nl(out: &mut Vec<u8>)
    ensures
        final(out)@ == old(out)@ + lit_nl(),
{
    out.push(10);
    proof {
        assert(out@ =~= old(out)@ + lit_nl());
    }
}

pub open spec fn lit_an7move() -> Seq<u8> {
    seq![123u8, 92, 97, 110, 55, 92, 109, 111, 118, 101, 40]
}

#[verifier::rlimit(60)]
fn put_an7move(out: &mut Vec<u8>)
    ensures
        final(out)@ == old(out)@ + lit_an7move(),
{
    out.push(123);
    out.push(92);
    out.push(97);
    out.push(110);
    out.push(55);
    out.push(92);
    out.push(109);
    out.push(111);
    out.push(118);
    out.push(101);
    out.push(40);
    proof {
        assert(out@ =~= old(out)@ + lit_an7move());
    }
}

pub open spec fn lit_an8pos() -> Seq<u8> {
    seq![123u8, 92, 97, 110, 56, 92, 112, 111, 115, 40]
}

#[verifier::rlimit(60)]
fn put_an8pos(out: &mut Vec<u8>)
    ensures
        final(out)@ == old(out)@ + lit_an8pos(),
{
    out.push(123);
    out.push(92);
    out.push(97);
    out.push(110);
    out.push(56);
    out.push(92);
    out.push(112);
    out.push(111);
    out.push(115);
    out.push(40);
    proof {
        assert(out@ =~= old(out)@ + lit_an8pos());
    }
}

pub open spec fn lit_an2pos() -> Seq<u8> {
    seq![123u8, 92, 97, 110, 50, 92, 112, 111, 115, 40]
}

#[verifier::rlimit(60)]
fn put_an2pos(out: &mut Vec<u8>)
    ensures
        final(out)@ == old(out)@ + lit_an2pos(),
{
    out.push(123);
    out.push(92);
    out.push(97);
    out.push(110);
    out.push(50);
    out.push(92);
    out.push(112);
    out.push(111);
    out.push(115);
    out.push(40);
    proof {
        assert(out@ =~= old(out)@ + lit_an2pos());
    }
}

pub open spec fn lit_rparen() -> Seq<u8> {
    seq![41u8]
}

fn put_rparen(out: &mut Vec<u8>)
    ensures
        final(out)@ == old(out)@ + lit_rparen(),
{
    out.push(41);
    proof {
        assert(out@ =~= old(out)@ + lit_rparen());
    }
}

pub open spec fn lit_fs_tag() -> Seq<u8> {
    seq![92u8, 102, 115]
}

fn put_fs_tag(out: &mut Vec<u8>)
    ensures
        final(out)@ == old(out)@ + lit_fs_tag(),
{
    out.push(92);
    out.push(102);
    out.push(115);
    proof {
        assert(out@ =~= old(out)@ + lit_fs_tag());
    }
}

pub open spec fn lit_color_tag() -> Seq<u8> {
    seq![92u8, 99, 38, 72]
}

fn put_color_tag(out: &mut Vec<u8>)
    ensures
        final(out)@ == old(out)@ + lit_color_tag(),
{
    out.push(92);
    out.push(99);
    out.push(38);
    out.push(72);
    proof {
        assert(out@ =~= old(out)@ + lit_color_tag());
    }
}

pub open spec fn lit_amp_close() -> Seq<u8> {
    seq![38u8, 125]
}

fn put_amp_close(out: &mut Vec<u8>)
    ensures
        final(out)@ == old(out)@ + lit_amp_close(),
{
    out.push(38);
    out.push(125);
    proof {
        assert(out@ =~= old(out)@ + lit_amp_close());
    }
}

pub open spec fn lit_frz_tag() -> Seq<u8> {
    seq![92u8, 102, 114, 122]
}

fn put_frz_tag(out: &mut Vec<u8>)
    ensures
        final(out)@ == old(out)@ + lit_frz_tag(),
{
    out.push(92);
    out.push(102);
    out.push(114);
    out.push(122);
    proof {
        assert(out@ =~= old(out)@ + lit_frz_tag());
    }
}

pub open spec fn lit_fry_tag() -> Seq<u8> {
    seq![92u8, 102, 114, 121]
}

fn put_fry_tag(out: &mut Vec<u8>)
    ensures
        final(out)@ == old(out)@ + lit_fry_tag(),
{
    out.push(92);
    out.push(102);
    out.push(114);
    out.push(121);
    proof {
        assert(out@ =~= old(out)@ + lit_fry_tag());
    }
}

pub open spec fn lit_kf_open() -> Seq<u8> {
    seq![92u8, 107, 102, 40]
}

fn put_kf_open(out: &mut Vec<u8>)
    ensures
        final(out)@ == old(out)@ + lit_kf_open(),
{
    out.push(92);
    out.push(107);
    out.push(102);
    out.push(40);
    proof {
        assert(out@ =~= old(out)@ + lit_kf_open());
    }
}

pub open spec fn lit_fn_tag() -> Seq<u8> {
    seq![92u8, 102, 110]
}

fn put_fn_tag(out: &mut Vec<u8>)
    ensures
        final(out)@ == old(out)@ + lit_fn_tag(),
{
    out.push(92);
    out.push(102);
    out.push(110);
    proof {
        assert(out@ =~= old(out)@ + lit_fn_tag());
    }
}

pub open spec fn lit_bord_tag() -> Seq<u8> {
    seq![92u8, 98, 111, 114, 100, 49]
}

fn put_bord_tag(out: &mut Vec<u8>)
    ensures
        final(out)@ == old(out)@ + lit_bord_tag(),
{
    out.push(92);
    out.push(98);
    out.push(111);
    out.push(114);
    out.push(100);
    out.push(49);
    proof {
        assert(out@ =~= old(out)@ + lit_bord_tag());
    }
}

// ---------------------------------------------------------------------------
// The header and the events.
// ---------------------------------------------------------------------------

/// The track header: emitted once per run.
pub open spec fn spec_header(w: nat, h: nat) -> Seq<u8> {
    lit_h1() + spec_dec(w) + lit_h2() + spec_dec(h) + lit_h3()
}

pub fn write_head(cfg: &Config, out: &mut Vec<u8>)
    ensures
        final(out)@ == old(out)@ + spec_header(cfg.canvas_width as nat, cfg.canvas_height as nat),
{
    let ghost pre = out@;
    put_h1(out);
    write_u64(cfg.canvas_width as u64, out);
    put_h2(out);
    write_u64(cfg.canvas_height as u64, out);
    put_h3(out);
    proof {
        assert(out@ =~= pre + spec_header(cfg.canvas_width as nat, cfg.canvas_height as nat));
    }
}

/// Style fragment shared by every override block: font size and colour.
pub open spec fn spec_tail(c: Comment) -> Seq<u8> {
    lit_fs_tag() + spec_dec(c.font_size as nat) + lit_color_tag() + spec_color_bgr(c.color as nat)
        + lit_amp_close()
}

fn write_tail(c: &Comment, out: &mut Vec<u8>)
    requires
        c.wf(),
    ensures
        final(out)@ == old(out)@ + spec_tail(*c),
{
    let ghost pre = out@;
    put_fs_tag(out);
    write_u64(c.font_size as u64, out);
    put_color_tag(out);
    write_color(c.color, out);
    put_amp_close(out);
    proof {
        assert(out@ =~= pre + spec_tail(*c));
    }
}

/// One keyframe directive.
pub open spec fn spec_kf(k: Keyframe) -> Seq<u8> {
    lit_kf_open() + spec_dec(k.fraction as nat) + lit_comma() + spec_sdec_out(k.x as int)
        + lit_comma() + spec_sdec_out(k.y as int) + lit_rparen()
}

pub open spec fn spec_kfs(ks: Seq<Keyframe>) -> Seq<u8>
    decreases ks.len(),
{
    if ks.len() == 0 {
        Seq::empty()
    } else {
        spec_kf(ks[0]) + spec_kfs(ks.skip(1))
    }
}

proof fn lemma_kfs_append_one(ks: Seq<Keyframe>, k: Keyframe)
    ensures
        spec_kfs(ks.push(k)) == spec_kfs(ks) + spec_kf(k),
    decreases ks.len(),
{
    if ks.len() == 0 {
        assert(ks.push(k)[0] == k);
        assert(ks.push(k).skip(1) =~= Seq::<Keyframe>::empty());
        assert(spec_kfs(Seq::<Keyframe>::empty()) == Seq::<u8>::empty());
        assert(spec_kf(k) + Seq::<u8>::empty() =~= spec_kf(k));
        assert(Seq::<u8>::empty() + spec_kf(k) =~= spec_kf(k));
        assert(spec_kfs(ks.push(k)) =~= spec_kfs(ks) + spec_kf(k));
    } else {
        lemma_kfs_append_one(ks.skip(1), k);
        assert(ks.push(k).skip(1) =~= ks.skip(1).push(k));
        assert(ks.push(k)[0] == ks[0]);
        assert(spec_kfs(ks.push(k)) =~= spec_kfs(ks) + spec_kf(k));
    }
}

fn write_kfs(ks: &Vec<Keyframe>, out: &mut Vec<u8>)
    ensures
        final(out)@ == old(out)@ + spec_kfs(ks@),
{
    let n = ks.len();
    let mut i: usize = 0;
    proof {
        assert(ks@.subrange(0, 0) =~= Seq::<Keyframe>::empty());
        assert(out@ =~= out@ + spec_kfs(ks@.subrange(0, 0)));
    }
    while i < n
        invariant
            i <= n,
            n == ks@.len(),
            out@ == old(out)@ + spec_kfs(ks@.subrange(0, i as int)),
        decreases n - i,
    {
        let ghost pre = out@;
        let k = ks[i];
        put_kf_open(out);
        write_u64(k.fraction as u64, out);
        put_comma(out);
        write_i32(k.x, out);
        put_comma(out);
        write_i32(k.y, out);
        put_rparen(out);
        proof {
            assert(out@ =~= pre + spec_kf(ks@[i as int]));
            lemma_kfs_append_one(ks@.subrange(0, i as int), ks@[i as int]);
            assert(ks@.subrange(0, i as int).push(ks@[i as int]) =~= ks@.subrange(0, i + 1));
        }
        i = i + 1;
    }
    proof {
        assert(ks@.subrange(0, n as int) =~= ks@);
    }
}

/// The position/motion override block of one comment.
///
/// Scroll comments move their leading edge across the canvas at height
/// `lane * row_height`; fixed comments sit centred at their lane's height
/// (bottom lanes counted from the lower canvas edge); scripted comments get
/// their explicit start/end positions, rotations, keyframes, font and border.
pub open spec fn spec_override(c: Comment, lane: int, w: int, h: int, rh: int) -> Seq<u8> {
    let y = lane * rh;
    match c.motion_class {
        MotionClass::ScrollRightLeft => lit_an7move() + spec_dec(w as nat) + lit_comma()
            + spec_dec(y as nat) + lit_comma() + spec_dec(0) + lit_comma() + spec_dec(y as nat)
            + lit_rparen() + spec_tail(c),
        MotionClass::ScrollLeftRight => lit_an7move() + spec_dec(0) + lit_comma() + spec_dec(
            y as nat,
        ) + lit_comma() + spec_dec(w as nat) + lit_comma() + spec_dec(y as nat) + lit_rparen()
            + spec_tail(c),
        MotionClass::FixedTop => lit_an8pos() + spec_dec((w / 2) as nat) + lit_comma() + spec_dec(
            y as nat,
        ) + lit_rparen() + spec_tail(c),
        MotionClass::FixedBottom => lit_an2pos() + spec_dec((w / 2) as nat) + lit_comma()
            + spec_dec((h - (lane + 1) * rh) as nat) + lit_rparen() + spec_tail(c),
        MotionClass::Scripted => match c.animation {
            Some(a) => lit_an7move() + spec_sdec_out(a.start_x as int) + lit_comma()
                + spec_sdec_out(a.start_y as int) + lit_comma() + spec_sdec_out(a.end_x as int)
                + lit_comma() + spec_sdec_out(a.end_y as int) + lit_rparen() + lit_frz_tag()
                + spec_sdec_out(a.rot_z as int) + lit_fry_tag() + spec_sdec_out(a.rot_y as int)
                + spec_kfs(a.keyframes@) + (match a.font_family {
                Some(f) => lit_fn_tag() + f@,
                None => Seq::<u8>::empty(),
            }) + (if a.border {
                lit_bord_tag()
            } else {
                Seq::<u8>::empty()
            }) + spec_tail(c),
            None => Seq::empty(),
        },
    }
}

/// One full event line for a laid-out comment.
pub open spec fn spec_event(c: Comment, lane: int, w: int, h: int, rh: int) -> Seq<u8> {
    lit_dlg() + spec_timestamp(c.timeline_offset as nat) + lit_comma() + spec_timestamp(
        (c.timeline_offset + c.duration) as nat,
    ) + lit_style() + spec_override(c, lane, w, h, rh) + spec_escape(c.content@) + lit_nl()
}

/// The override block of a scripted comment; its lane is irrelevant.
#[verifier::rlimit(100)]
fn write_scripted(c: &Comment, out: &mut Vec<u8>)
    requires
        c.wf(),
        c.motion_class == MotionClass::Scripted,
    ensures
        final(out)@ == old(out)@ + spec_override(*c, 0, 0, 0, 0),
        forall|lane: int, w: int, h: int, rh: int|
            spec_override(*c, 0, 0, 0, 0) == #[trigger] spec_override(*c, lane, w, h, rh),
{
    let ghost pre = out@;
    match &c.animation {
        Some(a) => {
            put_an7move(out);
            write_i32(a.start_x, out);
            put_comma(out);
            write_i32(a.start_y, out);
            put_comma(out);
            write_i32(a.end_x, out);
            put_comma(out);
            write_i32(a.end_y, out);
            put_rparen(out);
            put_frz_tag(out);
            write_i32(a.rot_z, out);
            put_fry_tag(out);
            write_i32(a.rot_y, out);
            write_kfs(&a.keyframes, out);
            match &a.font_family {
                Some(f) => {
                    put_fn_tag(out);
                    let mut j: usize = 0;
                    let ghost pre_f = out@;
                    while j < f.len()
                        invariant
                            j <= f@.len(),
                            out@ == pre_f + f@.subrange(0, j as int),
                        decreases f@.len() - j,
                    {
                        out.push(f[j]);
                        proof {
                            assert(out@ =~= pre_f + f@.subrange(0, j + 1));
                        }
                        j = j + 1;
                    }
                    proof {
                        assert(f@.subrange(0, f@.len() as int) =~= f@);
                    }
                },
                None => {},
            }
            if a.border {
                put_bord_tag(out);
            }
            write_tail(c, out);
            proof {
                assert(out@ =~= pre + spec_override(*c, 0, 0, 0, 0));
            }
        },
        None => {},
    }
}

#[verifier::rlimit(100)]
fn write_override(c: &Comment, lane: usize, cfg: &Config, out: &mut Vec<u8>)
    requires
        c.wf(),
        cfg.wf(),
        lane < cfg.lane_cap,
    ensures
        final(out)@ == old(out)@ + spec_override(
            *c,
            lane as int,
            cfg.canvas_width as int,
            cfg.canvas_height as int,
            cfg.row_height as int,
        ),
{
    let ghost pre = out@;
    let w = cfg.canvas_width as u64;
    let rh = cfg.row_height as u64;
    let h = cfg.canvas_height as u64;
    proof {
        assert((lane as int + 1) * (rh as int) <= (cfg.lane_cap as int) * (rh as int)) by (nonlinear_arith)
            requires
                lane as int + 1 <= cfg.lane_cap as int,
                rh as int >= 0,
        ;
        assert((lane as int) * (rh as int) >= 0) by (nonlinear_arith)
            requires
                lane as int >= 0,
                rh as int >= 0,
        ;
        assert((lane as int) * (rh as int) <= (lane as int + 1) * (rh as int)) by (nonlinear_arith)
            requires
                rh as int >= 0,
        ;
        assert((cfg.lane_cap as int) * (rh as int) <= cfg.canvas_height as int);
        assert((lane as int) * (rh as int) <= cfg.canvas_height as int);
        assert((lane as int + 1) * (rh as int) <= cfg.canvas_height as int);
    }
    let y = (lane as u64) * rh;
    match c.motion_class {
        MotionClass::ScrollRightLeft => {
            put_an7move(out);
            write_u64(w, out);
            put_comma(out);
            write_u64(y, out);
            put_comma(out);
            write_u64(0, out);
            put_comma(out);
            write_u64(y, out);
            put_rparen(out);
            write_tail(c, out);
        },
        MotionClass::ScrollLeftRight => {
            put_an7move(out);
            write_u64(0, out);
            put_comma(out);
            write_u64(y, out);
            put_comma(out);
            write_u64(w, out);
            put_comma(out);
            write_u64(y, out);
            put_rparen(out);
            write_tail(c, out);
        },
        MotionClass::FixedTop => {
            put_an8pos(out);
            write_u64(w / 2, out);
            put_comma(out);
            write_u64(y, out);
            put_rparen(out);
            write_tail(c, out);
        },
        MotionClass::FixedBottom => {
            put_an2pos(out);
            write_u64(w / 2, out);
            put_comma(out);
            write_u64(h - (lane as u64 + 1) * rh, out);
            put_rparen(out);
            write_tail(c, out);
        },
        MotionClass::Scripted => {
            write_scripted(c, out);
            proof {
                assert(spec_override(
                    *c,
                    lane as int,
                    cfg.canvas_width as int,
                    cfg.canvas_height as int,
                    cfg.row_height as int,
                ) == spec_override(
                    *c,
                    0,
                    cfg.canvas_width as int,
                    cfg.canvas_height as int,
                    cfg.row_height as int,
                ));
            }
        },
    }
    proof {
        assert(out@ =~= pre + spec_override(
            *c,
            lane as int,
            cfg.canvas_width as int,
            cfg.canvas_height as int,
            cfg.row_height as int,
        ));
    }
}

/// Append one event line. A pure projection: the bytes are exactly
/// `spec_event` of the comment, its lane, and the canvas geometry.
#[verifier::rlimit(100)]
pub fn write_event(c: &Comment, lane: usize, cfg: &Config, out: &mut Vec<u8>)
    requires
        c.wf(),
        cfg.wf(),
        lane < cfg.lane_cap,
    ensures
        final(out)@ == old(out)@ + spec_event(
            *c,
            lane as int,
            cfg.canvas_width as int,
            cfg.canvas_height as int,
            cfg.row_height as int,
        ),
{
    let ghost pre = out@;
    put_dlg(out);
    write_timestamp(c.timeline_offset, out);
    put_comma(out);
    write_timestamp(c.timeline_offset + c.duration, out);
    put_style(out);
    write_override(c, lane, cfg, out);
    let esc = escape_text(&c.content);
    let mut j: usize = 0;
    let ghost pre_e = out@;
    while j < esc.len()
        invariant
            j <= esc@.len(),
            out@ == pre_e + esc@.subrange(0, j as int),
        decreases esc@.len() - j,
    {
        out.push(esc[j]);
        proof {
            assert(out@ =~= pre_e + esc@.subrange(0, j + 1));
        }
        j = j + 1;
    }
    proof {
        assert(esc@.subrange(0, esc@.len() as int) =~= esc@);
    }
    put_nl(out);
    proof {
        assert(out@ =~= pre + spec_event(
            *c,
            lane as int,
            cfg.canvas_width as int,
            cfg.canvas_height as int,
            cfg.row_height as int,
        ));
    }
}

} // verus!
