//! Decimal numbers as text: reading a number literal, deciding whether two
//! number texts denote the same value, and printing a literal's value.
use vstd::prelude::*;
use crate::text::{is_digit, lemma_scan_while_bounds, scan_while, string_of};

verus! {

/// A number literal split into its parts: sign, the digits before and after
/// the decimal point, and the exponent (0 when absent).
pub struct DecimalV {
    pub neg: bool,
    pub int_digits: Seq<char>,
    pub frac_digits: Seq<char>,
    pub exp: int,
    pub has_exp: bool,
}

/// A value in lowest terms: `digits` (no leading or trailing zero) times
/// ten to the `exp`; zero has no digits and is not negative.
pub struct CanonV {
    pub neg: bool,
    pub digits: Seq<char>,
    pub exp: int,
}

/// The value of a run of decimal digits.
pub open spec fn digits_value(ds: Seq<char>) -> nat
    decreases ds.len(),
{
    if ds.len() == 0 {
        0
    } else {
        digits_value(ds.drop_last()) * 10 + (ds.last() as nat - '0' as nat) as nat
    }
}

pub open spec fn pow10(n: nat) -> nat
    decreases n,
{
    if n == 0 {
        1
    } else {
        10 * pow10((n - 1) as nat)
    }
}

/// The longest exponent (in digits) that a number text may carry.
pub open spec fn max_exp_digits() -> int {
    18
}

/// Read `t` as `[+-]? digits [. digits] [(e|E) [+-]? digits]` with at least
/// one mantissa digit and the whole text used.
pub open spec fn decimal_of(t: Seq<char>) -> Option<DecimalV> {
    let s: int = if t.len() > 0 && (t[0] == '-' || t[0] == '+') {
        1
    } else {
        0
    };
    let neg = t.len() > 0 && t[0] == '-';
    let i_end = scan_while(t, s, |c: char| is_digit(c));
    let has_point = i_end < t.len() && t[i_end] == '.';
    let f_start = if has_point {
        i_end + 1
    } else {
        i_end
    };
    let f_end = scan_while(t, f_start, |c: char| is_digit(c));
    if i_end == s && f_end == f_start {
        None
    } else if f_end == t.len() {
        Some(
            DecimalV {
                neg,
                int_digits: t.subrange(s, i_end),
                frac_digits: t.subrange(f_start, f_end),
                exp: 0,
                has_exp: false,
            },
        )
    } else if t[f_end] == 'e' || t[f_end] == 'E' {
        let e_neg = f_end + 1 < t.len() && t[f_end + 1] == '-';
        let es = if f_end + 1 < t.len() && (t[f_end + 1] == '-' || t[f_end + 1] == '+') {
            f_end + 2
        } else {
            f_end + 1
        };
        let e_end = scan_while(t, es, |c: char| is_digit(c));
        if e_end == es || e_end != t.len() || e_end - es > max_exp_digits() {
            None
        } else {
            let ev = digits_value(t.subrange(es, e_end)) as int;
            Some(
                DecimalV {
                    neg,
                    int_digits: t.subrange(s, i_end),
                    frac_digits: t.subrange(f_start, f_end),
                    exp: if e_neg {
                        -ev
                    } else {
                        ev
                    },
                    has_exp: true,
                },
            )
        }
    } else {
        None
    }
}

pub open spec fn strip_leading_zeros(ds: Seq<char>) -> Seq<char>
    decreases ds.len(),
{
    if ds.len() > 0 && ds[0] == '0' {
        strip_leading_zeros(ds.drop_first())
    } else {
        ds
    }
}

pub open spec fn trailing_zeros(ds: Seq<char>) -> nat
    decreases ds.len(),
{
    if ds.len() > 0 && ds.last() == '0' {
        1 + trailing_zeros(ds.drop_last())
    } else {
        0
    }
}

/// The value of `d` in lowest terms.
pub open spec fn canonical(d: DecimalV) -> CanonV {
    let lead = strip_leading_zeros(d.int_digits + d.frac_digits);
    if lead.len() == 0 {
        CanonV { neg: false, digits: Seq::empty(), exp: 0 }
    } else {
        let tz = trailing_zeros(lead);
        CanonV {
            neg: d.neg,
            digits: lead.subrange(0, lead.len() - tz),
            exp: d.exp - d.frac_digits.len() + tz,
        }
    }
}

/// Whether the number texts `a` and `b` denote the same decimal value.
pub open spec fn same_number(a: Seq<char>, b: Seq<char>) -> bool {
    match (decimal_of(a), decimal_of(b)) {
        (Some(x), Some(y)) => canonical(x) == canonical(y),
        _ => false,
    }
}

pub open spec fn zeros(n: nat) -> Seq<char> {
    Seq::new(n, |i: int| '0')
}

/// The digits of `c` written out without an exponent.
pub open spec fn canon_body(c: CanonV) -> Seq<char> {
    if c.digits.len() == 0 {
        seq!['0']
    } else if c.exp >= 0 {
        c.digits + zeros(c.exp as nat)
    } else {
        let k = c.digits.len() + c.exp;
        if k <= 0 {
            seq!['0', '.'] + zeros((-k) as nat) + c.digits
        } else {
            c.digits.subrange(0, k) + seq!['.'] + c.digits.subrange(k, c.digits.len() as int)
        }
    }
}

/// How a number literal is shown: its value in lowest terms, as an integer
/// when it has no fractional part and in plain decimal notation otherwise;
/// text that is not a literal without exponent is shown as it is.
pub open spec fn number_display(t: Seq<char>) -> Seq<char> {
    match decimal_of(t) {
        Some(d) => if d.has_exp {
            t
        } else {
            let c = canonical(d);
            if c.neg {
                seq!['-'] + canon_body(c)
            } else {
                canon_body(c)
            }
        },
        None => t,
    }
}

/// Whether the digit string `x` comes before `y` from position `i` on: at
/// the first place where they differ, `x` has the smaller digit, or `x` ends
/// there while `y` goes on.
pub open spec fn digits_before_from(x: Seq<char>, y: Seq<char>, i: nat) -> bool
    decreases x.len() - i,
{
    if i >= x.len() {
        i < y.len()
    } else if i >= y.len() {
        false
    } else if x[i as int] != y[i as int] {
        (x[i as int] as u32) < (y[i as int] as u32)
    } else {
        digits_before_from(x, y, i + 1)
    }
}

/// Whether the value of `a` is smaller than that of `b` in absolute terms.
/// A value in lowest terms with `n` digits and exponent `e` lies in
/// `[10^(n+e-1), 10^(n+e))`, so the one whose leading digit stands higher is
/// the larger; with the leading digits at the same place the digit strings
/// decide, read from the left.
pub open spec fn magnitude_less(a: CanonV, b: CanonV) -> bool {
    if a.digits.len() == 0 {
        b.digits.len() > 0
    } else if b.digits.len() == 0 {
        false
    } else if a.digits.len() + a.exp != b.digits.len() + b.exp {
        a.digits.len() + a.exp < b.digits.len() + b.exp
    } else {
        digits_before_from(a.digits, b.digits, 0)
    }
}

/// Whether the value of `a` is smaller than that of `b`.
pub open spec fn canon_less(a: CanonV, b: CanonV) -> bool {
    if a.neg != b.neg {
        a.neg
    } else if a.neg {
        magnitude_less(b, a)
    } else {
        magnitude_less(a, b)
    }
}

/// Whether `t` is a number literal.
pub open spec fn is_number(t: Seq<char>) -> bool {
    decimal_of(t) is Some
}

/// Whether the number texts `a` and `b` are both literals and `a` denotes the
/// smaller value.
pub open spec fn less_number(a: Seq<char>, b: Seq<char>) -> bool {
    match (decimal_of(a), decimal_of(b)) {
        (Some(x), Some(y)) => canon_less(canonical(x), canonical(y)),
        _ => false,
    }
}

/// The parts of a number literal (exec form of `DecimalV`).
struct Decimal {
    neg: bool,
    int_digits: Vec<char>,
    frac_digits: Vec<char>,
    exp: i64,
    has_exp: bool,
}

impl View for Decimal {
    type V = DecimalV;

    closed spec fn view(&self) -> DecimalV {
        DecimalV {
            neg: self.neg,
            int_digits: self.int_digits@,
            frac_digits: self.frac_digits@,
            exp: self.exp as int,
            has_exp: self.has_exp,
        }
    }
}

/// A value in lowest terms (exec form of `CanonV`).
struct Canon {
    neg: bool,
    digits: Vec<char>,
    exp: i128,
}

impl View for Canon {
    type V = CanonV;

    closed spec fn view(&self) -> CanonV {
        CanonV { neg: self.neg, digits: self.digits@, exp: self.exp as int }
    }
}

fn scan_digit_run(t: &[char], pos: usize) -> (end: usize)
    requires
        pos <= t@.len(),
    ensures
        end == scan_while(t@, pos as int, |c: char| is_digit(c)),
        pos <= end <= t@.len(),
{
    proof {
        lemma_scan_while_bounds(t@, pos as int, |c: char| is_digit(c));
    }
    let mut p = pos;
    while p < t.len() && '0' <= t[p] && t[p] <= '9'
        invariant
            pos <= p <= t@.len(),
            scan_while(t@, p as int, |c: char| is_digit(c)) == scan_while(
                t@,
                pos as int,
                |c: char| is_digit(c),
            ),
        decreases t@.len() - p,
    {
        p = p + 1;
    }
    p
}

fn copy_range(t: &[char], a: usize, b: usize) -> (r: Vec<char>)
    requires
        a <= b <= t@.len(),
    ensures
        r@ == t@.subrange(a as int, b as int),
{
    let mut r: Vec<char> = Vec::new();
    let mut i = a;
    while i < b
        invariant
            a <= i <= b <= t@.len(),
            r@ == t@.subrange(a as int, i as int),
        decreases b - i,
    {
        r.push(t[i]);
        i = i + 1;
        assert(r@ =~= t@.subrange(a as int, i as int));
    }
    r
}

proof fn lemma_digits_value_bound(ds: Seq<char>)
    requires
        forall|i: int| 0 <= i < ds.len() ==> is_digit(#[trigger] ds[i]),
    ensures
        digits_value(ds) < pow10(ds.len()),
    decreases ds.len(),
{
    if ds.len() > 0 {
        lemma_digits_value_bound(ds.drop_last());
    }
}

/// The value of the digit run `t[a..b]`, which has at most 18 digits.
fn digit_run_value(t: &[char], a: usize, b: usize) -> (v: i64)
    requires
        a <= b <= t@.len(),
        b - a <= 18,
        forall|i: int| a <= i < b ==> is_digit(#[trigger] t@[i]),
    ensures
        v == digits_value(t@.subrange(a as int, b as int)),
{
    let mut v: i64 = 0;
    let mut i = a;
    proof {
        reveal_with_fuel(pow10, 19);
        assert(pow10(18) == 1000000000000000000);
    }
    while i < b
        invariant
            a <= i <= b <= t@.len(),
            b - a <= 18,
            forall|k: int| a <= k < b ==> is_digit(#[trigger] t@[k]),
            v == digits_value(t@.subrange(a as int, i as int)),
            pow10(18) == 1000000000000000000,
        decreases b - i,
    {
        let ghost sub = t@.subrange(a as int, i as int + 1);
        proof {
            assert(sub.drop_last() =~= t@.subrange(a as int, i as int));
            assert forall|k: int| 0 <= k < sub.len() implies is_digit(#[trigger] sub[k]) by {
                assert(sub[k] == t@[a + k]);
            }
            lemma_digits_value_bound(sub);
            lemma_pow10_mono((i + 1 - a) as nat, 18);
        }
        let d = (t[i] as u32 - '0' as u32) as i64;
        v = v * 10 + d;
        i = i + 1;
    }
    v
}

proof fn lemma_pow10_mono(m: nat, n: nat)
    requires
        m <= n,
    ensures
        pow10(m) <= pow10(n),
    decreases n,
{
    if m < n {
        lemma_pow10_mono(m, (n - 1) as nat);
    }
}

/// Read a number text into its parts.
fn parse_decimal(t: &[char]) -> (r: Option<Decimal>)
    ensures
        match decimal_of(t@) {
            Some(d) => r matches Some(x) && x@ == d,
            None => r is None,
        },
        r matches Some(x) ==> x.int_digits@.len() + x.frac_digits@.len() <= t@.len(),
{
    let len = t.len();
    let s: usize = if len > 0 && (t[0] == '-' || t[0] == '+') {
        1
    } else {
        0
    };
    let neg = len > 0 && t[0] == '-';
    let i_end = scan_digit_run(t, s);
    let has_point = i_end < len && t[i_end] == '.';
    let f_start = if has_point {
        i_end + 1
    } else {
        i_end
    };
    let f_end = scan_digit_run(t, f_start);
    if i_end == s && f_end == f_start {
        return None;
    }
    let int_digits = copy_range(t, s, i_end);
    let frac_digits = copy_range(t, f_start, f_end);
    if f_end == len {
        return Some(Decimal { neg, int_digits, frac_digits, exp: 0, has_exp: false });
    }
    if t[f_end] == 'e' || t[f_end] == 'E' {
        let e_neg = len - f_end > 1 && t[f_end + 1] == '-';
        let es = if len - f_end > 1 && (t[f_end + 1] == '-' || t[f_end + 1] == '+') {
            f_end + 2
        } else {
            f_end + 1
        };
        let e_end = scan_digit_run(t, es);
        if e_end == es || e_end != len || e_end - es > 18 {
            return None;
        }
        proof {
            lemma_scan_while_bounds(t@, es as int, |c: char| is_digit(c));
        }
        let ev = digit_run_value(t, es, e_end);
        let exp = if e_neg {
            -ev
        } else {
            ev
        };
        return Some(Decimal { neg, int_digits, frac_digits, exp, has_exp: true });
    }
    None
}

proof fn lemma_strip_leading_zeros_suffix(ds: Seq<char>)
    ensures
        strip_leading_zeros(ds).len() <= ds.len(),
        strip_leading_zeros(ds) == ds.subrange(
            ds.len() - strip_leading_zeros(ds).len(),
            ds.len() as int,
        ),
        strip_leading_zeros(ds).len() > 0 ==> strip_leading_zeros(ds)[0] != '0',
    decreases ds.len(),
{
    if ds.len() > 0 && ds[0] == '0' {
        lemma_strip_leading_zeros_suffix(ds.drop_first());
        assert(ds.drop_first().subrange(
            ds.drop_first().len() - strip_leading_zeros(ds).len(),
            ds.drop_first().len() as int,
        ) =~= ds.subrange(ds.len() - strip_leading_zeros(ds).len(), ds.len() as int));
    } else {
        assert(ds.subrange(0, ds.len() as int) =~= ds);
    }
}

proof fn lemma_trailing_zeros_bound(ds: Seq<char>)
    ensures
        trailing_zeros(ds) <= ds.len(),
    decreases ds.len(),
{
    if ds.len() > 0 && ds.last() == '0' {
        lemma_trailing_zeros_bound(ds.drop_last());
    }
}

/// The value of `d` in lowest terms.
fn canonicalize(d: &Decimal) -> (c: Canon)
    requires
        d.int_digits@.len() + d.frac_digits@.len() <= usize::MAX,
    ensures
        c@ == canonical(d@),
        -0x4_0000_0000_0000_0000 <= c@.exp <= 0x4_0000_0000_0000_0000,
{
    let mut all: Vec<char> = Vec::new();
    let mut i: usize = 0;
    while i < d.int_digits.len()
        invariant
            i <= d.int_digits@.len(),
            all@ == d.int_digits@.subrange(0, i as int),
        decreases d.int_digits@.len() - i,
    {
        all.push(d.int_digits[i]);
        i = i + 1;
        assert(all@ =~= d.int_digits@.subrange(0, i as int));
    }
    let mut j: usize = 0;
    while j < d.frac_digits.len()
        invariant
            j <= d.frac_digits@.len(),
            all@ == d.int_digits@ + d.frac_digits@.subrange(0, j as int),
        decreases d.frac_digits@.len() - j,
    {
        all.push(d.frac_digits[j]);
        j = j + 1;
        assert(all@ =~= d.int_digits@ + d.frac_digits@.subrange(0, j as int));
    }
    assert(d.frac_digits@.subrange(0, d.frac_digits@.len() as int) =~= d.frac_digits@);
    assert(all@ == d.int_digits@ + d.frac_digits@);
    let n = all.len();
    let mut lead: usize = 0;
    assert(all@.subrange(0, n as int) =~= all@);
    while lead < n && all[lead] == '0'
        invariant
            lead <= n == all@.len(),
            strip_leading_zeros(all@.subrange(lead as int, n as int)) == strip_leading_zeros(
                all@,
            ),
        decreases n - lead,
    {
        assert(all@.subrange(lead as int, n as int).drop_first() =~= all@.subrange(
            lead + 1,
            n as int,
        ));
        lead = lead + 1;
    }
    proof {
        assert(all@.subrange(0, n as int) =~= all@);
    }
    let ghost stripped = all@.subrange(lead as int, n as int);
    assert(strip_leading_zeros(stripped) == stripped);
    if lead == n {
        return Canon { neg: false, digits: Vec::new(), exp: 0 };
    }
    let mut end: usize = n;
    while end > lead && all[end - 1] == '0'
        invariant
            lead < n,
            lead <= end <= n == all@.len(),
            trailing_zeros(stripped) == (n - end) + trailing_zeros(
                all@.subrange(lead as int, end as int),
            ),
        decreases end,
    {
        assert(all@.subrange(lead as int, end as int).drop_last() =~= all@.subrange(
            lead as int,
            end - 1,
        ));
        end = end - 1;
    }
    proof {
        if end > lead {
            assert(all@.subrange(lead as int, end as int).last() == all@[end - 1]);
        }
        lemma_trailing_zeros_bound(stripped);
    }
    let digits = copy_range(all.as_slice(), lead, end);
    assert(digits@ =~= stripped.subrange(0, stripped.len() - trailing_zeros(stripped)));
    let tz = (n - end) as i128;
    let exp = d.exp as i128 - d.frac_digits.len() as i128 + tz;
    Canon { neg: d.neg, digits, exp }
}

fn same_chars(a: &[char], b: &[char]) -> (r: bool)
    ensures
        r == (a@ == b@),
{
    if a.len() != b.len() {
        return false;
    }
    let mut i: usize = 0;
    while i < a.len()
        invariant
            a@.len() == b@.len(),
            i <= a@.len(),
            forall|k: int| 0 <= k < i ==> a@[k] == b@[k],
        decreases a@.len() - i,
    {
        if a[i] != b[i] {
            return false;
        }
        i = i + 1;
    }
    assert(a@ =~= b@);
    true
}

/// Whether the number texts `a` and `b` denote the same decimal value.
pub fn numbers_equal(a: &[char], b: &[char]) -> (r: bool)
    ensures
        r == same_number(a@, b@),
{
    match (parse_decimal(a), parse_decimal(b)) {
        (Some(x), Some(y)) => {
            assert(a@.len() == a.len() && b@.len() == b.len());
            let cx = canonicalize(&x);
            let cy = canonicalize(&y);
            cx.neg == cy.neg && cx.exp == cy.exp && same_chars(cx.digits.as_slice(), cy.digits.as_slice())
        },
        _ => false,
    }
}

fn digits_less(x: &[char], y: &[char]) -> (r: bool)
    ensures
        r == digits_before_from(x@, y@, 0),
{
    let mut i: usize = 0;
    while i < x.len() && i < y.len() && x[i] == y[i]
        invariant
            i <= x@.len(),
            digits_before_from(x@, y@, i as nat) == digits_before_from(x@, y@, 0),
        decreases x@.len() - i,
    {
        i = i + 1;
    }
    if i >= x.len() {
        i < y.len()
    } else if i >= y.len() {
        false
    } else {
        (x[i] as u32) < (y[i] as u32)
    }
}

fn canon_lt(a: &Canon, b: &Canon) -> (r: bool)
    requires
        -0x4_0000_0000_0000_0000 <= a@.exp <= 0x4_0000_0000_0000_0000,
        -0x4_0000_0000_0000_0000 <= b@.exp <= 0x4_0000_0000_0000_0000,
    ensures
        r == canon_less(a@, b@),
{
    let (x, y) = if a.neg != b.neg {
        return a.neg;
    } else if a.neg {
        (b, a)
    } else {
        (a, b)
    };
    if x.digits.len() == 0 {
        y.digits.len() > 0
    } else if y.digits.len() == 0 {
        false
    } else {
        let ex = x.digits.len() as i128 + x.exp;
        let ey = y.digits.len() as i128 + y.exp;
        if ex != ey {
            ex < ey
        } else {
            digits_less(x.digits.as_slice(), y.digits.as_slice())
        }
    }
}

/// Whether `t` is a number literal.
pub fn number_text(t: &[char]) -> (r: bool)
    ensures
        r == is_number(t@),
{
    parse_decimal(t).is_some()
}

/// Whether the number texts `a` and `b` are both literals and `a` denotes the
/// smaller value.
pub fn number_less(a: &[char], b: &[char]) -> (r: bool)
    ensures
        r == less_number(a@, b@),
{
    match (parse_decimal(a), parse_decimal(b)) {
        (Some(x), Some(y)) => {
            assert(a@.len() == a.len() && b@.len() == b.len());
            let cx = canonicalize(&x);
            let cy = canonicalize(&y);
            canon_lt(&cx, &cy)
        },
        _ => false,
    }
}

fn push_zeros(out: &mut Vec<char>, n: i128)
    requires
        n >= 0,
    ensures
        final(out)@ == old(out)@ + zeros(n as nat),
{
    let ghost start = out@;
    let mut i: i128 = 0;
    while i < n
        invariant
            0 <= i <= n,
            out@ == start + zeros(i as nat),
        decreases n - i,
    {
        out.push('0');
        i = i + 1;
        assert(out@ =~= start + zeros(i as nat));
    }
}

fn push_all(out: &mut Vec<char>, v: &[char], a: usize, b: usize)
    requires
        a <= b <= v@.len(),
    ensures
        final(out)@ == old(out)@ + v@.subrange(a as int, b as int),
{
    let ghost start = out@;
    let mut i = a;
    while i < b
        invariant
            a <= i <= b <= v@.len(),
            out@ == start + v@.subrange(a as int, i as int),
        decreases b - i,
    {
        out.push(v[i]);
        i = i + 1;
        assert(out@ =~= start + v@.subrange(a as int, i as int));
    }
}

/// How the number literal `t` is shown (see `number_display`).
pub fn display_number(t: &[char]) -> (r: Vec<char>)
    ensures
        r@ == number_display(t@),
{
    let mut out: Vec<char> = Vec::new();
    match parse_decimal(t) {
        Some(d) => {
            if d.has_exp {
                push_all(&mut out, t, 0, t.len());
                assert(t@.subrange(0, t@.len() as int) =~= t@);
                return out;
            }
            assert(t@.len() == t.len());
            let c = canonicalize(&d);
            let n = c.digits.len();
            if c.neg {
                out.push('-');
            }
            let ghost prefix = out@;
            if n == 0 {
                out.push('0');
            } else if c.exp >= 0 {
                push_all(&mut out, c.digits.as_slice(), 0, n);
                push_zeros(&mut out, c.exp);
                assert(c.digits@.subrange(0, n as int) =~= c.digits@);
            } else {
                let k: i128 = n as i128 + c.exp;
                if k <= 0 {
                    out.push('0');
                    out.push('.');
                    push_zeros(&mut out, -k);
                    push_all(&mut out, c.digits.as_slice(), 0, n);
                    assert(c.digits@.subrange(0, n as int) =~= c.digits@);
                } else {
                    let ku = k as usize;
                    push_all(&mut out, c.digits.as_slice(), 0, ku);
                    out.push('.');
                    push_all(&mut out, c.digits.as_slice(), ku, n);
                }
            }
            assert(out@ =~= prefix + canon_body(c@));
            out
        },
        None => {
            push_all(&mut out, t, 0, t.len());
            assert(t@.subrange(0, t@.len() as int) =~= t@);
            out
        },
    }
}

// ---------------------------------------------------------------------------
// Printing a literal gives back its value
// ---------------------------------------------------------------------------

/// Every character of `s` is a decimal digit.
pub open spec fn all_digits(s: Seq<char>) -> bool {
    forall|i: int| 0 <= i < s.len() ==> is_digit(#[trigger] s[i])
}

/// A minus sign when `neg`, nothing otherwise.
pub open spec fn sign_text(neg: bool) -> Seq<char> {
    if neg {
        seq!['-']
    } else {
        Seq::empty()
    }
}

proof fn lemma_scan_digits_to(t: Seq<char>, p: int, q: int)
    requires
        0 <= p <= q <= t.len(),
        forall|i: int| p <= i < q ==> is_digit(#[trigger] t[i]),
        q == t.len() || !is_digit(t[q]),
    ensures
        scan_while(t, p, |c: char| is_digit(c)) == q,
    decreases q - p,
{
    if p < q {
        lemma_scan_digits_to(t, p + 1, q);
    }
}

proof fn lemma_decimal_of_int(neg: bool, x: Seq<char>)
    requires
        x.len() > 0,
        all_digits(x),
    ensures
        decimal_of(sign_text(neg) + x) == Some(
            DecimalV { neg, int_digits: x, frac_digits: Seq::empty(), exp: 0, has_exp: false },
        ),
{
    let t = sign_text(neg) + x;
    let s: int = if neg { 1 } else { 0 };
    assert(t.len() == s + x.len());
    assert forall|i: int| s <= i < t.len() implies is_digit(#[trigger] t[i]) by {
        assert(t[i] == x[i - s]);
    }
    assert(!is_digit('-'));
    if neg {
        assert(t[0] == '-');
    } else {
        assert(t[0] == x[0]);
        assert(t[0] != '-' && t[0] != '+');
    }
    lemma_scan_digits_to(t, s, t.len() as int);
    lemma_scan_digits_to(t, t.len() as int, t.len() as int);
    assert(t.subrange(s, t.len() as int) =~= x);
    assert(t.subrange(t.len() as int, t.len() as int) =~= Seq::<char>::empty());
}

proof fn lemma_decimal_of_point(neg: bool, x: Seq<char>, y: Seq<char>)
    requires
        x.len() > 0,
        y.len() > 0,
        all_digits(x),
        all_digits(y),
    ensures
        decimal_of(sign_text(neg) + x + seq!['.'] + y) == Some(
            DecimalV { neg, int_digits: x, frac_digits: y, exp: 0, has_exp: false },
        ),
{
    let t = sign_text(neg) + x + seq!['.'] + y;
    let s: int = if neg { 1 } else { 0 };
    let e = s + x.len();
    assert(t.len() == e + 1 + y.len());
    assert forall|i: int| s <= i < e implies is_digit(#[trigger] t[i]) by {
        assert(t[i] == x[i - s]);
    }
    assert forall|i: int| e + 1 <= i < t.len() implies is_digit(#[trigger] t[i]) by {
        assert(t[i] == y[i - e - 1]);
    }
    assert(t[e] == '.');
    if neg {
        assert(t[0] == '-');
    } else {
        assert(t[0] == x[0]);
        assert(t[0] != '-' && t[0] != '+');
    }
    lemma_scan_digits_to(t, s, e);
    lemma_scan_digits_to(t, e + 1, t.len() as int);
    assert(t.subrange(s, e) =~= x);
    assert(t.subrange(e + 1, t.len() as int) =~= y);
}

proof fn lemma_strip_zeros_prefix(n: nat, x: Seq<char>)
    ensures
        strip_leading_zeros(zeros(n) + x) == strip_leading_zeros(x),
    decreases n,
{
    if n > 0 {
        assert((zeros(n) + x)[0] == '0');
        assert((zeros(n) + x).drop_first() =~= zeros((n - 1) as nat) + x);
        lemma_strip_zeros_prefix((n - 1) as nat, x);
    } else {
        assert(zeros(0) + x =~= x);
    }
}

proof fn lemma_trailing_zeros_suffix(x: Seq<char>, n: nat)
    ensures
        trailing_zeros(x + zeros(n)) == n + trailing_zeros(x),
    decreases n,
{
    if n > 0 {
        assert((x + zeros(n)).last() == '0');
        assert((x + zeros(n)).drop_last() =~= x + zeros((n - 1) as nat));
        lemma_trailing_zeros_suffix(x, (n - 1) as nat);
    } else {
        assert(x + zeros(0) =~= x);
    }
}

proof fn lemma_trailing_zeros_digits(x: Seq<char>)
    ensures
        trailing_zeros(x) <= x.len(),
        x.len() > 0 && x[0] != '0' ==> trailing_zeros(x) < x.len(),
        trailing_zeros(x) < x.len() ==> x[x.len() - trailing_zeros(x) - 1] != '0',
        forall|i: int| x.len() - trailing_zeros(x) <= i < x.len() ==> #[trigger] x[i] == '0',
    decreases x.len(),
{
    if x.len() > 0 && x.last() == '0' {
        lemma_trailing_zeros_digits(x.drop_last());
        assert forall|i: int| x.len() - trailing_zeros(x) <= i < x.len() implies #[trigger] x[i] == '0' by {
            if i < x.len() - 1 {
                assert(x[i] == x.drop_last()[i]);
            }
        }
        if x.len() == 1 {
            assert(x[0] == '0');
        }
    }
}

/// What `canonical` gives is in lowest terms: only digits, no leading or
/// trailing zero, and zero written with no digits and no sign.
proof fn lemma_canonical_shape(d: DecimalV)
    requires
        all_digits(d.int_digits),
        all_digits(d.frac_digits),
    ensures
        all_digits(canonical(d).digits),
        canonical(d).digits.len() > 0 ==> canonical(d).digits[0] != '0' && canonical(d).digits.last() != '0',
        canonical(d).digits.len() == 0 ==> canonical(d) == (CanonV { neg: false, digits: Seq::empty(), exp: 0 }),
{
    let ds = d.int_digits + d.frac_digits;
    assert(all_digits(ds)) by {
        assert forall|i: int| 0 <= i < ds.len() implies is_digit(#[trigger] ds[i]) by {
            if i < d.int_digits.len() {
                assert(ds[i] == d.int_digits[i]);
            } else {
                assert(ds[i] == d.frac_digits[i - d.int_digits.len()]);
            }
        }
    }
    lemma_strip_leading_zeros_suffix(ds);
    let lead = strip_leading_zeros(ds);
    if lead.len() > 0 {
        lemma_trailing_zeros_digits(lead);
        let tz = trailing_zeros(lead);
        let dg = lead.subrange(0, lead.len() - tz);
        assert forall|i: int| 0 <= i < dg.len() implies is_digit(#[trigger] dg[i]) by {
            assert(dg[i] == lead[i]);
            assert(lead[i] == ds[ds.len() - lead.len() + i]);
        }
        assert(dg[0] == lead[0]);
        assert(dg.last() == lead[lead.len() - tz - 1]);
    }
}

/// A value in lowest terms as `canonical` makes it.
pub open spec fn canon_shape(c: CanonV) -> bool {
    &&& all_digits(c.digits)
    &&& c.digits.len() > 0 ==> c.digits[0] != '0' && c.digits.last() != '0'
    &&& c.digits.len() == 0 ==> c == (CanonV { neg: false, digits: Seq::empty(), exp: 0 })
}

/// The text a value in lowest terms is printed as.
pub open spec fn canon_text(c: CanonV) -> Seq<char> {
    sign_text(c.neg) + canon_body(c)
}

/// The printed text of a value in lowest terms reads back as that value.
proof fn lemma_canon_text_reads_back(c: CanonV)
    requires
        canon_shape(c),
    ensures
        decimal_of(canon_text(c)) is Some,
        canonical(decimal_of(canon_text(c)).unwrap()) == c,
{
    let n = c.digits.len() as int;
    if n == 0 {
        lemma_canon_zero(c);
    } else if c.exp >= 0 {
        lemma_canon_int(c);
    } else if n + c.exp > 0 {
        lemma_canon_point(c);
    } else {
        lemma_canon_small(c);
    }
}

proof fn lemma_canon_zero(c: CanonV)
    requires
        canon_shape(c),
        c.digits.len() == 0,
    ensures
        decimal_of(canon_text(c)) is Some,
        canonical(decimal_of(canon_text(c)).unwrap()) == c,
{
    assert(canon_body(c) == seq!['0']);
    assert(all_digits(seq!['0']));
    lemma_decimal_of_int(c.neg, seq!['0']);
    let d2 = DecimalV { neg: c.neg, int_digits: seq!['0'], frac_digits: Seq::<char>::empty(), exp: 0, has_exp: false };
    assert(d2.int_digits + d2.frac_digits =~= seq!['0']);
    assert(seq!['0'].drop_first() =~= Seq::<char>::empty());
    assert(strip_leading_zeros(seq!['0']) == strip_leading_zeros(Seq::<char>::empty()));
    assert(canonical(d2) == c);
}

proof fn lemma_canon_int(c: CanonV)
    requires
        canon_shape(c),
        c.digits.len() > 0,
        c.exp >= 0,
    ensures
        decimal_of(canon_text(c)) is Some,
        canonical(decimal_of(canon_text(c)).unwrap()) == c,
{
    let n = c.digits.len() as int;
    let z = zeros(c.exp as nat);
    let x = c.digits + z;
    assert(canon_body(c) == x);
    assert(all_digits(x)) by {
        assert forall|i: int| 0 <= i < x.len() implies is_digit(#[trigger] x[i]) by {
            if i < n {
                assert(x[i] == c.digits[i]);
            } else {
                assert(x[i] == z[i - n]);
            }
        }
    }
    lemma_decimal_of_int(c.neg, x);
    let d2 = DecimalV { neg: c.neg, int_digits: x, frac_digits: Seq::<char>::empty(), exp: 0, has_exp: false };
    assert(d2.int_digits + d2.frac_digits =~= x);
    assert(x[0] == c.digits[0]);
    assert(strip_leading_zeros(x) == x);
    lemma_trailing_zeros_suffix(c.digits, c.exp as nat);
    assert(trailing_zeros(c.digits) == 0);
    assert(x.subrange(0, x.len() - c.exp) =~= c.digits);
    assert(canonical(d2) == c);
}

proof fn lemma_canon_point(c: CanonV)
    requires
        canon_shape(c),
        c.digits.len() > 0,
        c.exp < 0,
        c.digits.len() + c.exp > 0,
    ensures
        decimal_of(canon_text(c)) is Some,
        canonical(decimal_of(canon_text(c)).unwrap()) == c,
{
    let n = c.digits.len() as int;
    let k = n + c.exp;
    let x = c.digits.subrange(0, k);
    let y = c.digits.subrange(k, n);
    assert(canon_body(c) == x + seq!['.'] + y);
    assert(all_digits(x)) by {
        assert forall|i: int| 0 <= i < x.len() implies is_digit(#[trigger] x[i]) by {
            assert(x[i] == c.digits[i]);
        }
    }
    assert(all_digits(y)) by {
        assert forall|i: int| 0 <= i < y.len() implies is_digit(#[trigger] y[i]) by {
            assert(y[i] == c.digits[k + i]);
        }
    }
    lemma_decimal_of_point(c.neg, x, y);
    assert(canon_text(c) =~= sign_text(c.neg) + x + seq!['.'] + y);
    let d2 = DecimalV { neg: c.neg, int_digits: x, frac_digits: y, exp: 0, has_exp: false };
    assert(d2.int_digits + d2.frac_digits =~= c.digits);
    assert(strip_leading_zeros(c.digits) == c.digits);
    assert(trailing_zeros(c.digits) == 0);
    assert(c.digits.subrange(0, n) =~= c.digits);
    assert(canonical(d2) == c);
}

proof fn lemma_canon_small(c: CanonV)
    requires
        canon_shape(c),
        c.digits.len() > 0,
        c.digits.len() + c.exp <= 0,
    ensures
        decimal_of(canon_text(c)) is Some,
        canonical(decimal_of(canon_text(c)).unwrap()) == c,
{
    let n = c.digits.len() as int;
    let k = n + c.exp;
    let m = (-k) as nat;
    let x = seq!['0'];
    let y = zeros(m) + c.digits;
    assert(canon_body(c) == seq!['0', '.'] + zeros(m) + c.digits);
    assert(all_digits(y)) by {
        assert forall|i: int| 0 <= i < y.len() implies is_digit(#[trigger] y[i]) by {
            if i < m {
                assert(y[i] == '0');
            } else {
                assert(y[i] == c.digits[i - m]);
            }
        }
    }
    assert(all_digits(x));
    lemma_decimal_of_point(c.neg, x, y);
    assert(canon_text(c) =~= sign_text(c.neg) + x + seq!['.'] + y);
    let d2 = DecimalV { neg: c.neg, int_digits: x, frac_digits: y, exp: 0, has_exp: false };
    assert(d2.int_digits + d2.frac_digits =~= zeros(m + 1) + c.digits);
    lemma_strip_zeros_prefix(m + 1, c.digits);
    assert(strip_leading_zeros(c.digits) == c.digits);
    assert(trailing_zeros(c.digits) == 0);
    assert(c.digits.subrange(0, n) =~= c.digits);
    assert(canonical(d2) == c);
}

/// A literal is printed (`number_display`) as text that reads as a number
/// literal of the same decimal value, so the breadcrumb shows the filter that
/// is in force (for example `2.5` prints as `2.5`, `007.50` as `7.5`, `-0` as
/// `0`).
pub proof fn law_number_display_same_value(t: Seq<char>)
    requires
        is_number(t),
    ensures
        is_number(number_display(t)),
        same_number(number_display(t), t),
{
    let d = decimal_of(t).unwrap();
    if !d.has_exp {
        lemma_decimal_digits(t);
        lemma_canonical_shape(d);
        let c = canonical(d);
        assert(number_display(t) =~= canon_text(c));
        lemma_canon_text_reads_back(c);
    }
}

/// The digit runs that `decimal_of` reads are digits.
proof fn lemma_decimal_digits(t: Seq<char>)
    requires
        decimal_of(t) is Some,
    ensures
        all_digits(decimal_of(t).unwrap().int_digits),
        all_digits(decimal_of(t).unwrap().frac_digits),
{
    let s: int = if t.len() > 0 && (t[0] == '-' || t[0] == '+') { 1 } else { 0 };
    lemma_scan_while_bounds(t, s, |c: char| is_digit(c));
    let i_end = scan_while(t, s, |c: char| is_digit(c));
    let has_point = i_end < t.len() && t[i_end] == '.';
    let f_start = if has_point { i_end + 1 } else { i_end };
    lemma_scan_while_bounds(t, f_start, |c: char| is_digit(c));
    let f_end = scan_while(t, f_start, |c: char| is_digit(c));
    let d = decimal_of(t).unwrap();
    assert(d.int_digits == t.subrange(s, i_end));
    assert(d.frac_digits == t.subrange(f_start, f_end));
    assert forall|i: int| 0 <= i < d.int_digits.len() implies is_digit(#[trigger] d.int_digits[i]) by {
        assert(d.int_digits[i] == t[s + i]);
    }
    assert forall|i: int| 0 <= i < d.frac_digits.len() implies is_digit(#[trigger] d.frac_digits[i]) by {
        assert(d.frac_digits[i] == t[f_start + i]);
    }
}

} // verus!
