//! The exact numeric order of JSON numbers.
//!
//! A number is compared by the decimal value its text denotes: its digits times
//! a power of ten. Nothing is rounded, so two texts compare equal exactly when
//! they denote the same value.
use super::parse::{digits_end, digits_value, is_digit, lemma_digits_end, lemma_digits_value_nonneg};
use super::{Json, JsonValue, MAX_SAFE_INTEGER};
use vstd::prelude::*;

verus! {

/// Ten to the power `n`.
pub open spec fn pow10(n: nat) -> nat
    decreases n,
{
    if n == 0 {
        1
    } else {
        10 * pow10((n - 1) as nat)
    }
}

/// Every character of `ds` is a decimal digit.
pub open spec fn all_digits(ds: Seq<char>) -> bool {
    forall|k: int| 0 <= k < ds.len() ==> is_digit(#[trigger] ds[k])
}

/// Two values `(m, x)`, each standing for `m * 10^x`, brought to their common
/// (smaller) power of ten: the integers `a * 10^-k` and `b * 10^-k`.
pub open spec fn aligned(a: (int, int), b: (int, int)) -> (int, int) {
    let k = if a.1 <= b.1 {
        a.1
    } else {
        b.1
    };
    (a.0 * pow10((a.1 - k) as nat), b.0 * pow10((b.1 - k) as nat))
}

/// `a < b` on values `(m, x)` standing for `m * 10^x`.
pub open spec fn value_lt(a: (int, int), b: (int, int)) -> bool {
    aligned(a, b).0 < aligned(a, b).1
}

/// The value `(m, x)` is a whole number.
pub open spec fn is_whole(v: (int, int)) -> bool {
    let magnitude = if v.0 < 0 {
        -v.0
    } else {
        v.0
    };
    v.1 >= 0 || magnitude % (pow10((-v.1) as nat) as int) == 0
}

/// The value a number lexeme denotes: an optional minus sign, integer digits,
/// an optional fraction and an optional exponent of at most eighteen digits.
pub open spec fn lexeme_value(t: Seq<char>) -> Option<(int, int)> {
    let q: int = if t.len() > 0 && t[0] == '-' {
        1
    } else {
        0
    };
    let ie = digits_end(t, q);
    let has_frac = ie < t.len() && t[ie] == '.';
    let fe = if has_frac {
        digits_end(t, ie + 1)
    } else {
        ie
    };
    let has_exp = fe < t.len() && (t[fe] == 'e' || t[fe] == 'E');
    let signed = has_exp && fe + 1 < t.len() && (t[fe + 1] == '+' || t[fe + 1] == '-');
    let es = if signed {
        fe + 2
    } else {
        fe + 1
    };
    let ee = if has_exp {
        digits_end(t, es)
    } else {
        fe
    };
    if ie == q || (has_frac && fe == ie + 1) || (has_exp && (ee == es || ee - es > 18)) || ee
        != t.len() {
        None
    } else {
        let frac = if has_frac {
            t.subrange(ie + 1, fe)
        } else {
            Seq::empty()
        };
        let m = digits_value(t.subrange(q, ie) + frac);
        let e = if has_exp {
            digits_value(t.subrange(es, ee))
        } else {
            0
        };
        let exp = if signed && t[fe + 1] == '-' {
            -e
        } else {
            e
        };
        Some((
            if q == 1 {
                -m
            } else {
                m
            },
            exp - frac.len(),
        ))
    }
}

/// The value of a JSON number: an integer, or the decimal its text denotes.
pub open spec fn number_value(v: Json) -> Option<(int, int)> {
    match v {
        Json::Integer(n) => Some((n, 0)),
        Json::Number(t) => lexeme_value(t),
        _ => None,
    }
}

proof fn lemma_pow10_pos(n: nat)
    ensures
        pow10(n) >= 1,
    decreases n,
{
    if n > 0 {
        lemma_pow10_pos((n - 1) as nat);
    }
}

proof fn lemma_pow10_add(a: nat, b: nat)
    ensures
        pow10(a + b) == pow10(a) * pow10(b),
    decreases b,
{
    if b == 0 {
        assert(pow10(0) == 1);
        assert(a + b == a);
        assert(pow10(a) * 1 == pow10(a));
    } else {
        lemma_pow10_add(a, (b - 1) as nat);
        assert(pow10(a + b) == 10 * pow10((a + b - 1) as nat));
        assert(pow10(b) == 10 * pow10((b - 1) as nat));
        assert((a + b - 1) as nat == a + ((b - 1) as nat));
        assert(pow10(a) * (10 * pow10((b - 1) as nat)) == 10 * (pow10(a) * pow10((b - 1) as nat)))
            by (nonlinear_arith);
    }
}

proof fn lemma_pow10_mono(a: nat, b: nat)
    requires
        a <= b,
    ensures
        pow10(a) <= pow10(b),
{
    lemma_pow10_add(a, (b - a) as nat);
    lemma_pow10_pos((b - a) as nat);
    lemma_pow10_pos(a);
    assert(pow10(a) * pow10((b - a) as nat) >= pow10(a)) by (nonlinear_arith)
        requires
            pow10((b - a) as nat) >= 1,
            pow10(a) >= 1,
    ;
}

proof fn lemma_pow10_eighteen()
    ensures
        pow10(17) == 100_000_000_000_000_000,
        pow10(18) == 1_000_000_000_000_000_000,
{
    reveal_with_fuel(pow10, 19);
}

proof fn lemma_digits_bound(r: Seq<char>)
    requires
        all_digits(r),
    ensures
        0 <= digits_value(r) < pow10(r.len()),
    decreases r.len(),
{
    if r.len() > 0 {
        let t = r.drop_last();
        lemma_digits_bound(t);
        let d = r.last() as int - '0' as int;
        assert(is_digit(r[r.len() - 1]));
        assert(digits_value(r) == digits_value(t) * 10 + d);
        assert(pow10(r.len()) == 10 * pow10(t.len()));
        assert(digits_value(t) * 10 + d < 10 * pow10(t.len())) by (nonlinear_arith)
            requires
                0 <= digits_value(t) < pow10(t.len()),
                0 <= d <= 9,
        ;
    }
}

proof fn lemma_digits_concat(p: Seq<char>, r: Seq<char>)
    ensures
        digits_value(p + r) == digits_value(p) * pow10(r.len()) + digits_value(r),
    decreases r.len(),
{
    if r.len() == 0 {
        assert(p + r =~= p);
        assert(digits_value(r) == 0);
        assert(pow10(0) == 1);
        assert(digits_value(p) * 1 == digits_value(p));
    } else {
        let t = r.drop_last();
        lemma_digits_concat(p, t);
        assert((p + r).drop_last() =~= p + t);
        assert((p + r).last() == r.last());
        let d = r.last() as int - '0' as int;
        assert(pow10(r.len()) == 10 * pow10(t.len()));
        assert(digits_value(p + r) == digits_value(p + t) * 10 + d);
        assert(digits_value(r) == digits_value(t) * 10 + d);
        let vp = digits_value(p);
        let vt = digits_value(t);
        let pt = pow10(t.len());
        assert((vp * pt + vt) * 10 + d == vp * (10 * pt) + (vt * 10 + d)) by (nonlinear_arith);
        assert(digits_value(p + t) == vp * pt + vt);
        assert(digits_value(p + r) == (vp * pt + vt) * 10 + d);
        assert(digits_value(p + r) == vp * (10 * pt) + (vt * 10 + d));
    }
}

proof fn lemma_single_digit(c: char)
    ensures
        digits_value(seq![c]) == c as int - '0' as int,
{
    assert(seq![c].drop_last() =~= Seq::<char>::empty());
    assert(digits_value(Seq::<char>::empty()) == 0);
    assert(seq![c].last() == c);
}

proof fn lemma_leading_digit(r: Seq<char>)
    requires
        all_digits(r),
        r.len() > 0,
        r[0] != '0',
    ensures
        digits_value(r) >= pow10((r.len() - 1) as nat),
{
    let rest = r.drop_first();
    assert(seq![r[0]] + rest =~= r);
    lemma_digits_concat(seq![r[0]], rest);
    lemma_single_digit(r[0]);
    assert(is_digit(r[0]));
    lemma_digits_bound(rest);
    assert(all_digits(rest)) by {
        assert forall|k: int| 0 <= k < rest.len() implies is_digit(#[trigger] rest[k]) by {
            assert(rest[k] == r[k + 1]);
        }
    }
    lemma_digits_bound(rest);
    let c = r[0] as int - '0' as int;
    assert(c * pow10(rest.len()) >= pow10(rest.len())) by (nonlinear_arith)
        requires
            c >= 1,
            pow10(rest.len()) >= 0,
    ;
}

proof fn lemma_zero_digits(r: Seq<char>)
    requires
        forall|k: int| 0 <= k < r.len() ==> #[trigger] r[k] == '0',
    ensures
        digits_value(r) == 0,
    decreases r.len(),
{
    if r.len() > 0 {
        lemma_zero_digits(r.drop_last());
    }
}

/// The first difference between two equal-length digit strings decides their order.
proof fn lemma_first_difference(a: Seq<char>, b: Seq<char>, i: int)
    requires
        all_digits(a),
        all_digits(b),
        a.len() == b.len(),
        0 <= i < a.len(),
        a.subrange(0, i) == b.subrange(0, i),
        a[i] < b[i],
    ensures
        digits_value(a) < digits_value(b),
{
    let n = a.len();
    let tail = (n - i - 1) as nat;
    let pa = a.subrange(0, i + 1);
    let pb = b.subrange(0, i + 1);
    let ra = a.subrange(i + 1, n as int);
    let rb = b.subrange(i + 1, n as int);
    assert(pa + ra =~= a);
    assert(pb + rb =~= b);
    lemma_digits_concat(pa, ra);
    lemma_digits_concat(pb, rb);
    assert(pa.drop_last() =~= a.subrange(0, i));
    assert(pb.drop_last() =~= b.subrange(0, i));
    let v = digits_value(a.subrange(0, i));
    assert(digits_value(pa) == v * 10 + (a[i] as int - '0' as int));
    assert(digits_value(pb) == v * 10 + (b[i] as int - '0' as int));
    assert(all_digits(ra)) by {
        assert forall|k: int| 0 <= k < ra.len() implies is_digit(#[trigger] ra[k]) by {
            assert(ra[k] == a[i + 1 + k]);
        }
    }
    assert(all_digits(rb)) by {
        assert forall|k: int| 0 <= k < rb.len() implies is_digit(#[trigger] rb[k]) by {
            assert(rb[k] == b[i + 1 + k]);
        }
    }
    lemma_digits_bound(ra);
    lemma_digits_bound(rb);
    assert(ra.len() == tail && rb.len() == tail);
    let x = digits_value(pa);
    let y = digits_value(pb);
    let p = pow10(tail);
    assert(x * p + digits_value(ra) < y * p + digits_value(rb)) by (nonlinear_arith)
        requires
            x + 1 <= y,
            0 <= digits_value(ra) < p,
            0 <= digits_value(rb),
    ;
}
/// The string `s` padded with zeros to length `n`.
pub open spec fn padded(s: Seq<char>, n: int) -> Seq<char> {
    s + Seq::new((n - s.len()) as nat, |i: int| '0')
}

proof fn lemma_magnitude_gt(a: Seq<char>, xa: int, b: Seq<char>, xb: int)
    requires
        all_digits(a),
        all_digits(b),
        a.len() > 0,
        b.len() > 0,
        a[0] != '0',
        a.len() + xa > b.len() + xb,
    ensures
        aligned((digits_value(a), xa), (digits_value(b), xb)).0 > aligned(
            (digits_value(a), xa),
            (digits_value(b), xb),
        ).1,
{
    let k = if xa <= xb {
        xa
    } else {
        xb
    };
    let va = digits_value(a);
    let vb = digits_value(b);
    let pa = pow10((xa - k) as nat);
    let pb = pow10((xb - k) as nat);
    lemma_leading_digit(a);
    lemma_digits_bound(b);
    lemma_pow10_pos((xa - k) as nat);
    lemma_pow10_pos((xb - k) as nat);
    let low = pow10((a.len() - 1) as nat);
    let high = pow10(b.len());
    lemma_pow10_add((a.len() - 1) as nat, (xa - k) as nat);
    lemma_pow10_add(b.len(), (xb - k) as nat);
    lemma_pow10_mono((b.len() + xb - k) as nat, (a.len() - 1 + xa - k) as nat);
    assert(va * pa >= low * pa) by (nonlinear_arith)
        requires
            va >= low,
            pa >= 1,
    ;
    assert(vb * pb < high * pb) by (nonlinear_arith)
        requires
            vb < high,
            pb >= 1,
    ;
    assert(((a.len() - 1) as nat + (xa - k) as nat) as nat == (a.len() - 1 + xa - k) as nat);
    assert((b.len() + (xb - k) as nat) as nat == (b.len() + xb - k) as nat);
}

proof fn lemma_aligned_padded(a: Seq<char>, xa: int, b: Seq<char>, xb: int, n: int)
    requires
        all_digits(a),
        all_digits(b),
        a.len() + xa == b.len() + xb,
        n == if a.len() >= b.len() {
            a.len() as int
        } else {
            b.len() as int
        },
    ensures
        aligned((digits_value(a), xa), (digits_value(b), xb)) == (
            digits_value(padded(a, n)),
            digits_value(padded(b, n)),
        ),
{
    let za = Seq::new((n - a.len()) as nat, |i: int| '0');
    let zb = Seq::new((n - b.len()) as nat, |i: int| '0');
    lemma_zero_digits(za);
    lemma_zero_digits(zb);
    lemma_digits_concat(a, za);
    lemma_digits_concat(b, zb);
    let va = digits_value(a);
    let vb = digits_value(b);
    if a.len() >= b.len() {
        assert(za.len() == 0);
        assert(pow10(0) == 1);
        assert(va * 1 == va);
        assert((xa - xa) as nat == 0);
        assert((xb - xa) as nat == zb.len());
    } else {
        assert(zb.len() == 0);
        assert(pow10(0) == 1);
        assert(vb * 1 == vb);
        assert((xb - xb) as nat == 0);
        assert((xa - xb) as nat == za.len());
    }
}

/// A number as its sign, its significant digits and a power of ten.
#[derive(Debug)]
pub struct Decimal {
    negative: bool,
    digits: Vec<char>,
    scale: i128,
}

/// The largest scale magnitude a decimal carries.
pub open spec fn scale_bound() -> int {
    0x1_0000_0000_0000_0000_0000_0000
}

impl Decimal {
    /// Digits without a leading zero, and a scale well inside `i128`.
    pub closed spec fn wf(&self) -> bool {
        &&& all_digits(self.digits@)
        &&& (self.digits@.len() == 0 || self.digits@[0] != '0')
        &&& -scale_bound() < self.scale < scale_bound()
    }

    /// The value `(m, x)`, standing for `m * 10^x`.
    pub closed spec fn value(&self) -> (int, int) {
        let m = digits_value(self.digits@);
        (
            if self.negative {
                -m
            } else {
                m
            },
            self.scale as int,
        )
    }
}

/// `-1`, `0` or `1` as `x` is below, equal to or above `y`.
pub open spec fn order(x: int, y: int) -> i8 {
    if x < y {
        -1i8
    } else if x == y {
        0i8
    } else {
        1i8
    }
}

/// The order of two nonzero magnitudes `a * 10^xa` and `b * 10^xb`.
fn magnitude_order(a: &Vec<char>, xa: i128, b: &Vec<char>, xb: i128) -> (c: i8)
    requires
        all_digits(a@),
        all_digits(b@),
        a@.len() > 0,
        b@.len() > 0,
        a@[0] != '0',
        b@[0] != '0',
        -scale_bound() < xa < scale_bound(),
        -scale_bound() < xb < scale_bound(),
    ensures
        c == order(
            aligned((digits_value(a@), xa as int), (digits_value(b@), xb as int)).0,
            aligned((digits_value(a@), xa as int), (digits_value(b@), xb as int)).1,
        ),
{
    let ghost va = digits_value(a@);
    let ghost vb = digits_value(b@);
    let ea = a.len() as i128 + xa;
    let eb = b.len() as i128 + xb;
    if ea > eb {
        proof {
            lemma_magnitude_gt(a@, xa as int, b@, xb as int);
        }
        return 1;
    }
    if ea < eb {
        proof {
            lemma_magnitude_gt(b@, xb as int, a@, xa as int);
        }
        return -1;
    }
    let n = if a.len() >= b.len() {
        a.len()
    } else {
        b.len()
    };
    let ghost pa = padded(a@, n as int);
    let ghost pb = padded(b@, n as int);
    proof {
        lemma_aligned_padded(a@, xa as int, b@, xb as int, n as int);
    }
    assert(all_digits(pa));
    assert(all_digits(pb));
    let mut i: usize = 0;
    while i < n
        invariant
            i <= n,
            pa.len() == n,
            pb.len() == n,
            pa == padded(a@, n as int),
            pb == padded(b@, n as int),
            all_digits(pa),
            all_digits(pb),
            pa.subrange(0, i as int) == pb.subrange(0, i as int),
            aligned((va, xa as int), (vb, xb as int)) == (digits_value(pa), digits_value(pb)),
            va == digits_value(a@),
            vb == digits_value(b@),
        decreases n - i,
    {
        let ca = if i < a.len() {
            a[i]
        } else {
            '0'
        };
        let cb = if i < b.len() {
            b[i]
        } else {
            '0'
        };
        assert(ca == pa[i as int]);
        assert(cb == pb[i as int]);
        if ca != cb {
            if ca < cb {
                proof {
                    lemma_first_difference(pa, pb, i as int);
                }
                return -1;
            } else {
                proof {
                    lemma_first_difference(pb, pa, i as int);
                }
                return 1;
            }
        }
        assert(pa.subrange(0, i + 1) =~= pa.subrange(0, i as int).push(ca));
        assert(pb.subrange(0, i + 1) =~= pb.subrange(0, i as int).push(cb));
        i = i + 1;
    }
    assert(pa =~= pa.subrange(0, n as int));
    assert(pb =~= pb.subrange(0, n as int));
    0
}


/// The position after the digits of `t` starting at `p`.
fn scan_digits(t: &Vec<char>, p: usize) -> (e: usize)
    requires
        p <= t@.len(),
    ensures
        e == digits_end(t@, p as int),
        p <= e <= t@.len(),
{
    proof {
        lemma_digits_end(t@, p as int);
    }
    let mut i = p;
    while i < t.len() && '0' <= t[i] && t[i] <= '9'
        invariant
            p <= i <= t@.len(),
            digits_end(t@, i as int) == digits_end(t@, p as int),
        decreases t@.len() - i,
    {
        i = i + 1;
    }
    i
}

/// The value of at most eighteen digits.
fn small_value(t: &Vec<char>, start: usize, end: usize) -> (v: u64)
    requires
        start <= end <= t@.len(),
        end - start <= 18,
        forall|k: int| start <= k < end ==> is_digit(#[trigger] t@[k]),
    ensures
        v == digits_value(t@.subrange(start as int, end as int)),
{
    let mut v: u64 = 0;
    let mut i = start;
    assert(t@.subrange(start as int, start as int) =~= Seq::<char>::empty());
    assert(pow10(0) == 1);
    while i < end
        invariant
            start <= i <= end,
            end <= t@.len(),
            end - start <= 18,
            forall|k: int| start <= k < end ==> is_digit(#[trigger] t@[k]),
            v == digits_value(t@.subrange(start as int, i as int)),
            v < pow10((i - start) as nat),
        decreases end - i,
    {
        let ghost prefix = t@.subrange(start as int, i as int);
        assert(t@.subrange(start as int, i + 1) =~= prefix.push(t@[i as int]));
        assert(prefix.push(t@[i as int]).drop_last() =~= prefix);
        proof {
            lemma_pow10_mono((i - start) as nat, 17);
            lemma_pow10_eighteen();
        }
        let d = (t[i] as u32 - '0' as u32) as u64;
        v = v * 10 + d;
        i = i + 1;
    }
    v
}

/// Copy of `s[from..to]`.
fn copy_range(s: &Vec<char>, from: usize, to: usize, out: &mut Vec<char>)
    requires
        from <= to <= s@.len(),
    ensures
        final(out)@ == old(out)@ + s@.subrange(from as int, to as int),
{
    let mut i = from;
    while i < to
        invariant
            from <= i <= to <= s@.len(),
            out@ == old(out)@ + s@.subrange(from as int, i as int),
        decreases to - i,
    {
        out.push(s[i]);
        assert(s@.subrange(from as int, i + 1) =~= s@.subrange(from as int, i as int).push(
            s@[i as int],
        ));
        i = i + 1;
    }
}

/// The digits of `m` without leading zeros, with the same value.
fn significant(m: &Vec<char>) -> (d: Vec<char>)
    requires
        all_digits(m@),
    ensures
        all_digits(d@),
        d@.len() == 0 || d@[0] != '0',
        d@.len() <= m@.len(),
        digits_value(d@) == digits_value(m@),
{
    let mut z: usize = 0;
    while z < m.len() && m[z] == '0'
        invariant
            z <= m@.len(),
            forall|k: int| 0 <= k < z ==> #[trigger] m@[k] == '0',
        decreases m@.len() - z,
    {
        z = z + 1;
    }
    let mut d: Vec<char> = Vec::new();
    copy_range(m, z, m.len(), &mut d);
    proof {
        let head = m@.subrange(0, z as int);
        assert(head + d@ =~= m@);
        lemma_zero_digits(head);
        lemma_digits_concat(head, d@);
        assert(all_digits(d@)) by {
            assert forall|k: int| 0 <= k < d@.len() implies is_digit(#[trigger] d@[k]) by {
                assert(d@[k] == m@[z + k]);
            }
        }
    }
    d
}

impl Decimal {
    /// The exact value of an integer.
    pub fn from_integer(n: i64) -> (d: Decimal)
        ensures
            d.wf(),
            d.value() == (n as int, 0int),
    {
        if n == 0 {
            let d = Decimal { negative: false, digits: Vec::new(), scale: 0 };
            assert(digits_value(d.digits@) == 0);
            return d;
        }
        let magnitude: u64 = if n < 0 {
            (0i128 - n as i128) as u64
        } else {
            n as u64
        };
        let mut text = String::new();
        crate::text::push_decimal(magnitude, &mut text);
        let digits = crate::text::chars_of(text.as_str());
        proof {
            crate::json::round_trip::lemma_nat_text(magnitude as nat);
            assert(digits@ =~= crate::text::nat_text(magnitude as nat));
        }
        Decimal { negative: n < 0, digits, scale: 0 }
    }

    /// The exact value of a number text, when it is a number lexeme whose
    /// exponent has at most eighteen digits.
    #[verifier::rlimit(80)]
    #[verifier::spinoff_prover]
    pub fn from_text(text: &str) -> (d: Option<Decimal>)
        ensures
            match lexeme_value(text@) {
                Some(v) => d matches Some(x) && x.wf() && x.value() == v,
                None => d is None,
            },
    {
        let t = crate::text::chars_of(text);
        let ghost s = t@;
        let n = t.len();
        let q: usize = if n > 0 && t[0] == '-' {
            1
        } else {
            0
        };
        let ie = scan_digits(&t, q);
        if ie == q {
            return None;
        }
        let has_frac = ie < n && t[ie] == '.';
        let fe = if has_frac {
            scan_digits(&t, ie + 1)
        } else {
            ie
        };
        if has_frac && fe == ie + 1 {
            return None;
        }
        let has_exp = fe < n && (t[fe] == 'e' || t[fe] == 'E');
        let signed = has_exp && fe + 1 < n && (t[fe + 1] == '+' || t[fe + 1] == '-');
        let es = if signed {
            fe + 2
        } else if has_exp {
            fe + 1
        } else {
            fe
        };
        let ee = if has_exp {
            scan_digits(&t, es)
        } else {
            fe
        };
        if has_exp && (ee == es || ee - es > 18) {
            return None;
        }
        if ee != n {
            return None;
        }
        proof {
            lemma_digits_end(s, q as int);
            if has_frac {
                lemma_digits_end(s, ie + 1);
            }
            if has_exp {
                lemma_digits_end(s, es as int);
            }
        }
        let mut m: Vec<char> = Vec::new();
        copy_range(&t, q, ie, &mut m);
        let frac_len: usize = if has_frac {
            copy_range(&t, ie + 1, fe, &mut m);
            fe - ie - 1
        } else {
            0
        };
        let ghost frac = if has_frac {
            s.subrange(ie + 1, fe as int)
        } else {
            Seq::empty()
        };
        assert(m@ =~= s.subrange(q as int, ie as int) + frac);
        assert(all_digits(m@)) by {
            assert forall|k: int| 0 <= k < m@.len() implies is_digit(#[trigger] m@[k]) by {
                if k < ie - q {
                    assert(m@[k] == s[q + k]);
                } else {
                    assert(m@[k] == s[ie + 1 + (k - (ie - q))]);
                }
            }
        }
        let e: u64 = if has_exp {
            small_value(&t, es, ee)
        } else {
            0
        };
        let exp: i128 = if signed && t[fe + 1] == '-' {
            0 - e as i128
        } else {
            e as i128
        };
        proof {
            if has_exp {
                lemma_digits_bound(s.subrange(es as int, ee as int));
                assert(all_digits(s.subrange(es as int, ee as int))) by {
                    assert forall|k: int| 0 <= k < ee - es implies is_digit(
                        #[trigger] s.subrange(es as int, ee as int)[k],
                    ) by {
                        assert(s.subrange(es as int, ee as int)[k] == s[es + k]);
                    }
                }
                lemma_digits_bound(s.subrange(es as int, ee as int));
                lemma_pow10_mono((ee - es) as nat, 18);
                lemma_pow10_eighteen();
            }
        }
        let digits = significant(&m);
        let d = Decimal { negative: q == 1, digits, scale: exp - frac_len as i128 };
        Some(d)
    }

    /// Whether the value is a whole number.
    #[verifier::loop_isolation(false)]
    pub fn is_whole(&self) -> (whole: bool)
        requires
            self.wf(),
        ensures
            whole == is_whole(self.value()),
    {
        let ghost a = digits_value(self.digits@);
        proof {
            lemma_digits_bound(self.digits@);
        }
        if self.scale >= 0 {
            return true;
        }
        let r = 0 - self.scale;
        let ghost p = pow10(r as nat) as int;
        proof {
            lemma_pow10_pos(r as nat);
        }
        if self.digits.len() == 0 {
            assert(a == 0);
            assert(0int % p == 0) by (nonlinear_arith)
                requires
                    p >= 1,
            ;
            return true;
        }
        let len = self.digits.len() as i128;
        if r > len {
            proof {
                lemma_leading_digit(self.digits@);
                lemma_pow10_pos((self.digits@.len() - 1) as nat);
                lemma_pow10_mono(self.digits@.len(), r as nat);
                vstd::arithmetic::div_mod::lemma_fundamental_div_mod_converse(a, p, 0, a);
            }
            return false;
        }
        let start = (len - r) as usize;
        let ghost head = self.digits@.subrange(0, start as int);
        let ghost tail = self.digits@.subrange(start as int, self.digits@.len() as int);
        proof {
            assert(head + tail =~= self.digits@);
            lemma_digits_concat(head, tail);
            assert(all_digits(tail)) by {
                assert forall|k: int| 0 <= k < tail.len() implies is_digit(#[trigger] tail[k]) by {
                    assert(tail[k] == self.digits@[start + k]);
                }
            }
            assert(all_digits(head)) by {
                assert forall|k: int| 0 <= k < head.len() implies is_digit(#[trigger] head[k]) by {
                    assert(head[k] == self.digits@[k]);
                }
            }
            lemma_digits_bound(tail);
            crate::json::parse::lemma_digits_value_nonneg(head);
            assert(tail.len() == r);
            vstd::arithmetic::div_mod::lemma_fundamental_div_mod_converse(
                a,
                p,
                digits_value(head),
                digits_value(tail),
            );
        }
        let mut i = start;
        while i < self.digits.len()
            invariant
                start <= i <= self.digits@.len(),
                tail == self.digits@.subrange(start as int, self.digits@.len() as int),
                forall|k: int| 0 <= k < i - start ==> #[trigger] tail[k] == '0',
            decreases self.digits@.len() - i,
        {
            if self.digits[i] != '0' {
                proof {
                    let j = i - start;
                    let front = tail.subrange(0, j);
                    let back = tail.subrange(j, tail.len() as int);
                    assert(front + back =~= tail);
                    lemma_digits_concat(front, back);
                    assert(back[0] == tail[j]);
                    assert(all_digits(back)) by {
                        assert forall|k: int| 0 <= k < back.len() implies is_digit(
                            #[trigger] back[k],
                        ) by {
                            assert(back[k] == tail[j + k]);
                        }
                    }
                    lemma_leading_digit(back);
                    lemma_pow10_pos((back.len() - 1) as nat);
                    assert forall|k: int| 0 <= k < front.len() implies #[trigger] front[k] == '0' by {
                        assert(front[k] == tail[k]);
                    }
                    lemma_zero_digits(front);
                }
                return false;
            }
            i = i + 1;
        }
        proof {
            lemma_zero_digits(tail);
        }
        true
    }

    /// Whether this value is below `other`.
    pub fn lt(&self, other: &Decimal) -> (below: bool)
        requires
            self.wf(),
            other.wf(),
        ensures
            below == value_lt(self.value(), other.value()),
    {
        let ghost va = digits_value(self.digits@);
        let ghost vb = digits_value(other.digits@);
        let ghost k = if self.scale <= other.scale {
            self.scale as int
        } else {
            other.scale as int
        };
        let ghost pa = pow10((self.scale - k) as nat) as int;
        let ghost pb = pow10((other.scale - k) as nat) as int;
        proof {
            lemma_pow10_pos((self.scale - k) as nat);
            lemma_pow10_pos((other.scale - k) as nat);
            lemma_digits_bound(self.digits@);
            lemma_digits_bound(other.digits@);
            if self.digits@.len() > 0 {
                lemma_leading_digit(self.digits@);
                lemma_pow10_pos((self.digits@.len() - 1) as nat);
            }
            if other.digits@.len() > 0 {
                lemma_leading_digit(other.digits@);
                lemma_pow10_pos((other.digits@.len() - 1) as nat);
            }
            assert(va * pa >= 0 && (va >= 1 ==> va * pa >= 1)) by (nonlinear_arith)
                requires
                    va >= 0,
                    pa >= 1,
            ;
            assert(vb * pb >= 0 && (vb >= 1 ==> vb * pb >= 1)) by (nonlinear_arith)
                requires
                    vb >= 0,
                    pb >= 1,
            ;
            assert((-va) * pa == -(va * pa)) by (nonlinear_arith);
            assert((-vb) * pb == -(vb * pb)) by (nonlinear_arith);
            assert(va == 0 ==> va * pa == 0);
            assert(vb == 0 ==> vb * pb == 0);
        }
        let sa: i8 = if self.digits.len() == 0 {
            0
        } else if self.negative {
            -1
        } else {
            1
        };
        let sb: i8 = if other.digits.len() == 0 {
            0
        } else if other.negative {
            -1
        } else {
            1
        };
        if sa != sb {
            return sa < sb;
        }
        if sa == 0 {
            return false;
        }
        let c = magnitude_order(&self.digits, self.scale, &other.digits, other.scale);
        if sa > 0 {
            c < 0
        } else {
            c > 0
        }
    }
}

/// The exact value of a JSON number, when it has one.
pub fn decimal_of(value: &JsonValue) -> (d: Option<Decimal>)
    ensures
        match number_value(value.model()) {
            Some(v) => d matches Some(x) && x.wf() && x.value() == v,
            None => d is None,
        },
{
    match value {
        JsonValue::Integer(n) => Some(Decimal::from_integer(*n)),
        JsonValue::Number(text) => Decimal::from_text(text.as_str()),
        _ => None,
    }
}


/// The decimal text of 2^1024 - 2^970: the least magnitude that rounds past
/// the largest finite binary64 number under round-to-nearest-even.
pub open spec fn overflow_text() -> Seq<char> {
    "179769313486231580793728971405303415079934132710037826936173778980444968292764750946649017977587207096330286416692887910946555547851940402630657488671505820681908902000708383676273854845817711531764475730270069855571366959622842914819860834936475292719074168444365510704342711559699508093042880177904174497792"@
}

/// The magnitude of a value `(m, x)`.
pub open spec fn magnitude(v: (int, int)) -> (int, int) {
    (if v.0 < 0 {
        -v.0
    } else {
        v.0
    }, v.1)
}

/// A number text denotes a value that a finite binary64 number can hold:
/// its magnitude is below [`overflow_text`].
pub open spec fn within_binary64(t: Seq<char>) -> bool {
    match (lexeme_value(t), lexeme_value(overflow_text())) {
        (Some(v), Some(limit)) => value_lt(magnitude(v), limit),
        (Some(_), None) => true,
        (None, _) => false,
    }
}

impl Decimal {
    /// The magnitude of this value.
    pub fn abs(&self) -> (m: Decimal)
        requires
            self.wf(),
        ensures
            m.wf(),
            m.value() == magnitude(self.value()),
    {
        let mut digits: Vec<char> = Vec::new();
        copy_range(&self.digits, 0, self.digits.len(), &mut digits);
        assert(digits@ =~= self.digits@);
        let m = Decimal { negative: false, digits, scale: self.scale };
        proof {
            lemma_digits_value_nonneg(self.digits@);
        }
        m
    }
}

/// Whether a number text denotes a value a finite binary64 number can hold.
pub fn is_within_binary64(text: &str) -> (within: bool)
    ensures
        within == within_binary64(text@),
{
    let limit = Decimal::from_text("179769313486231580793728971405303415079934132710037826936173778980444968292764750946649017977587207096330286416692887910946555547851940402630657488671505820681908902000708383676273854845817711531764475730270069855571366959622842914819860834936475292719074168444365510704342711559699508093042880177904174497792");
    match Decimal::from_text(text) {
        None => false,
        Some(d) => match limit {
            Some(l) => d.abs().lt(&l),
            None => true,
        },
    }
}

} // verus!
