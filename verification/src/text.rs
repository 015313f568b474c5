//! Decimal text: formatting numbers and whole counts, and reading a numeral
//! out of a character run. All views are sequences of characters.
use vstd::prelude::*;
use crate::num::{Num, SCALE, iabs};

verus! {

/// Relies on String::push: appends the given character to the end of the string.
#[verifier::external_body]
pub fn push_char(s: &mut String, c: char)
    ensures
        final(s)@ == old(s)@.push(c),
{
    s.push(c);
}

pub fn push_chars(s: &mut String, v: &Vec<char>)
    ensures
        final(s)@ == old(s)@ + v@,
{
    let mut i: usize = 0;
    while i < v.len()
        invariant
            i <= v@.len(),
            s@ == old(s)@ + v@.take(i as int),
        decreases v@.len() - i,
    {
        push_char(s, v[i]);
        proof {
            assert(old(s)@ + v@.take(i as int + 1) =~= (old(s)@ + v@.take(i as int)).push(
                v@[i as int],
            ));
        }
        i = i + 1;
    }
    proof {
        assert(v@.take(v@.len() as int) =~= v@);
    }
}

pub open spec fn dec_digit(d: int) -> char {
    if d == 0 {
        '0'
    } else if d == 1 {
        '1'
    } else if d == 2 {
        '2'
    } else if d == 3 {
        '3'
    } else if d == 4 {
        '4'
    } else if d == 5 {
        '5'
    } else if d == 6 {
        '6'
    } else if d == 7 {
        '7'
    } else if d == 8 {
        '8'
    } else {
        '9'
    }
}

/// Decimal spelling of a whole count, most significant digit first.
pub open spec fn dec_seq(n: nat) -> Seq<char>
    decreases n,
{
    if n < 10 {
        seq![dec_digit(n as int)]
    } else {
        dec_seq(n / 10).push(dec_digit((n % 10) as int))
    }
}

fn digit_char(d: u128) -> (c: char)
    requires
        d < 10,
    ensures
        c == dec_digit(d as int),
{
    if d == 0 {
        '0'
    } else if d == 1 {
        '1'
    } else if d == 2 {
        '2'
    } else if d == 3 {
        '3'
    } else if d == 4 {
        '4'
    } else if d == 5 {
        '5'
    } else if d == 6 {
        '6'
    } else if d == 7 {
        '7'
    } else if d == 8 {
        '8'
    } else {
        '9'
    }
}

/// Appends the decimal spelling of `n`.
pub fn push_dec(s: &mut String, n: u128)
    ensures
        final(s)@ == old(s)@ + dec_seq(n as nat),
    decreases n,
{
    if n >= 10 {
        push_dec(s, n / 10);
        push_char(s, digit_char(n % 10));
        proof {
            assert(final(s)@ =~= old(s)@ + dec_seq(n as nat));
        }
    } else {
        push_char(s, digit_char(n));
        proof {
            assert(final(s)@ =~= old(s)@ + dec_seq(n as nat));
        }
    }
}

/// The last `k` decimal digits of `n`, zero padded to exactly `k` places.
pub open spec fn fixed_digits(n: nat, k: nat) -> Seq<char>
    decreases k,
{
    if k == 0 {
        Seq::empty()
    } else {
        fixed_digits(n / 10, (k - 1) as nat).push(dec_digit((n % 10) as int))
    }
}

fn fixed_digits_exec(n: u128, k: usize) -> (v: Vec<char>)
    ensures
        v@ == fixed_digits(n as nat, k as nat),
    decreases k,
{
    if k == 0 {
        Vec::new()
    } else {
        let mut v = fixed_digits_exec(n / 10, k - 1);
        v.push(digit_char(n % 10));
        v
    }
}

/// The sequence with its trailing zero characters removed.
pub open spec fn trim_zeros(s: Seq<char>) -> Seq<char>
    decreases s.len(),
{
    if s.len() > 0 && s.last() == '0' {
        trim_zeros(s.drop_last())
    } else {
        s
    }
}

fn trim_trailing(v: &mut Vec<char>)
    ensures
        final(v)@ == trim_zeros(old(v)@),
{
    while v.len() > 0 && v[v.len() - 1] == '0'
        invariant
            trim_zeros(v@) == trim_zeros(old(v)@),
        decreases v@.len(),
    {
        proof {
            assert(v@.drop_last() =~= v@.subrange(0, v@.len() - 1));
        }
        v.pop();
    }
}

/// Decimal text of a scaled count: optional sign, whole part, and a fractional
/// part only where it is not zero, with trailing zeros trimmed.
pub open spec fn num_text(m: int) -> Seq<char> {
    let sgn: Seq<char> = if m < 0 {
        seq!['-']
    } else {
        Seq::empty()
    };
    let ip = iabs(m) / (SCALE as nat);
    let fr = iabs(m) % (SCALE as nat);
    if fr == 0 {
        sgn + dec_seq(ip)
    } else {
        sgn + dec_seq(ip) + seq!['.'] + trim_zeros(fixed_digits(fr, 9))
    }
}

pub open spec fn is_digit(c: char) -> bool {
    48 <= c as u32 && c as u32 <= 57
}

pub fn is_digit_exec(c: char) -> (r: bool)
    ensures
        r == is_digit(c),
{
    let u = c as u32;
    48 <= u && u <= 57
}

/// Value of one digit character; anything else counts as zero.
pub open spec fn dval(c: char) -> nat {
    if is_digit(c) {
        (c as u32 - 48) as nat
    } else {
        0
    }
}

/// Value of a digit run, most significant digit first.
pub open spec fn digits_val(s: Seq<char>) -> nat
    decreases s.len(),
{
    if s.len() == 0 {
        0
    } else {
        digits_val(s.drop_last()) * 10 + dval(s.last())
    }
}

pub open spec fn pow10(k: nat) -> nat
    decreases k,
{
    if k == 0 {
        1
    } else {
        10 * pow10((k - 1) as nat)
    }
}

/// Index of the first point character, or the length when there is none.
pub open spec fn dot_idx(s: Seq<char>) -> int
    decreases s.len(),
{
    if s.len() == 0 {
        0
    } else if s[0] == '.' {
        0
    } else {
        1 + dot_idx(s.drop_first())
    }
}

proof fn lemma_dot_idx(s: Seq<char>)
    ensures
        0 <= dot_idx(s) <= s.len(),
        dot_idx(s) < s.len() ==> s[dot_idx(s)] == '.',
        forall|j: int| 0 <= j < dot_idx(s) ==> s[j] != '.',
    decreases s.len(),
{
    if s.len() > 0 && s[0] != '.' {
        lemma_dot_idx(s.drop_first());
        assert forall|j: int| 0 <= j < dot_idx(s) implies s[j] != '.' by {
            if j > 0 {
                assert(s.drop_first()[j - 1] == s[j]);
            }
        }
    }
}

proof fn lemma_digits_val_take(s: Seq<char>, k: int)
    requires
        0 <= k <= s.len(),
    ensures
        digits_val(s.subrange(0, k)) <= digits_val(s),
    decreases s.len() - k,
{
    if k == s.len() {
        assert(s.subrange(0, k) =~= s);
    } else {
        lemma_digits_val_take(s, k + 1);
        assert(s.subrange(0, k + 1).drop_last() =~= s.subrange(0, k));
        assert(digits_val(s.subrange(0, k + 1)) == digits_val(s.subrange(0, k)) * 10 + dval(
            s.subrange(0, k + 1).last(),
        ));
    }
}

proof fn lemma_digits_val_bound(s: Seq<char>)
    ensures
        digits_val(s) < pow10(s.len()),
    decreases s.len(),
{
    if s.len() > 0 {
        lemma_digits_val_bound(s.drop_last());
        assert(dval(s.last()) <= 9);
    }
}

proof fn lemma_pow10_le(a: nat, b: nat)
    requires
        a <= b,
    ensures
        pow10(a) <= pow10(b),
        1 <= pow10(a),
    decreases b,
{
    if a < b {
        lemma_pow10_le(a, (b - 1) as nat);
    } else if a > 0 {
        lemma_pow10_le((a - 1) as nat, (b - 1) as nat);
    }
}

/// A character run spells a numeral: every character a digit or a point, at
/// least one digit, and no second point.
pub open spec fn numeral_wf(s: Seq<char>) -> bool {
    &&& forall|i: int| 0 <= i < s.len() ==> (is_digit(s[i]) || s[i] == '.')
    &&& exists|i: int| 0 <= i < s.len() && is_digit(s[i])
    &&& forall|i: int| dot_idx(s) < i < s.len() ==> s[i] != '.'
}

/// The scaled count a numeral spells: the whole part in scaled units plus the
/// first nine fractional digits, padded with zeros on the right.
pub open spec fn numeral_scaled(s: Seq<char>) -> nat {
    let d = dot_idx(s);
    let ip = s.subrange(0, d);
    let fp = if d < s.len() {
        s.subrange(d + 1, s.len() as int)
    } else {
        Seq::empty()
    };
    let f9: nat = if fp.len() >= 9 {
        digits_val(fp.subrange(0, 9))
    } else {
        digits_val(fp) * pow10((9 - fp.len()) as nat)
    };
    digits_val(ip) * (SCALE as nat) + f9
}

/// The number a numeral run denotes: a malformed run, or one whose scaled
/// count cannot be held, falls back to zero.
pub open spec fn parse_numeral(s: Seq<char>) -> int {
    if numeral_wf(s) && numeral_scaled(s) <= u128::MAX {
        numeral_scaled(s) as int
    } else {
        0
    }
}

fn pow10_exec(k: usize) -> (r: u128)
    requires
        k <= 9,
    ensures
        r == pow10(k as nat),
{
    let mut r: u128 = 1;
    let mut i: usize = 0;
    while i < k
        invariant
            i <= k <= 9,
            r == pow10(i as nat),
            r <= 1_000_000_000,
        decreases k - i,
    {
        proof {
            lemma_pow10_le(i as nat + 1, 9);
            lemma_pow10_nine();
        }
        r = r * 10;
        i = i + 1;
    }
    r
}

/// Reads the numeral spelled by `v[start..end]`.
pub fn parse_numeral_run(v: &Vec<char>, start: usize, end: usize) -> (r: Num)
    requires
        start <= end <= v@.len(),
    ensures
        r@ == parse_numeral(v@.subrange(start as int, end as int)),
{
    let ghost s = v@.subrange(start as int, end as int);
    proof {
        lemma_dot_idx(s);
    }
    let mut i: usize = start;
    let mut dot: usize = end;
    let mut has_digit = false;
    let mut shape_ok = true;
    let mut single = true;
    while i < end
        invariant
            start <= i <= end <= v@.len(),
            s == v@.subrange(start as int, end as int),
            dot == end || (start <= dot < i && s[dot - start] == '.'),
            dot == end ==> forall|j: int| 0 <= j < i - start ==> s[j] != '.',
            dot < end ==> forall|j: int| 0 <= j < dot - start ==> s[j] != '.',
            shape_ok == forall|j: int| 0 <= j < i - start ==> (is_digit(s[j]) || s[j] == '.'),
            has_digit == exists|j: int| 0 <= j < i - start && is_digit(s[j]),
            single == (dot == end || forall|j: int|
                dot - start < j < i - start ==> s[j] != '.'),
        decreases end - i,
    {
        let c = v[i];
        proof {
            assert(s[i - start] == v@[i as int]);
        }
        if c == '.' {
            if dot == end {
                dot = i;
            } else {
                single = false;
            }
        } else if is_digit_exec(c) {
            has_digit = true;
        } else {
            shape_ok = false;
        }
        i = i + 1;
    }
    proof {
        if dot == end {
            assert(dot_idx(s) == s.len());
        } else {
            assert(dot_idx(s) == dot - start);
        }
    }
    if !(shape_ok && single && has_digit) {
        proof {
            assert(!numeral_wf(s));
        }
        return Num::zero();
    }
    proof {
        assert(numeral_wf(s));
    }
    // Whole part: characters before the point (or the whole run).
    let ghost ip = s.subrange(0, dot_idx(s));
    let mut acc: u128 = 0;
    let mut j: usize = start;
    while j < dot
        invariant
            start <= j <= dot <= end <= v@.len(),
            s == v@.subrange(start as int, end as int),
            dot == end || dot_idx(s) == dot - start,
            dot == end ==> dot_idx(s) == s.len(),
            ip == s.subrange(0, dot_idx(s)),
            acc == digits_val(s.subrange(0, j - start)),
            numeral_wf(s),
            forall|q: int| 0 <= q < dot_idx(s) ==> s[q] != '.',
        decreases dot - j,
    {
        proof {
            assert(s[j - start] == v@[j as int]);
            assert(is_digit(s[j - start]));
            assert(s.subrange(0, j - start + 1).drop_last() =~= s.subrange(0, j - start));
        }
        let c = v[j];
        let d = (c as u32 - 48) as u128;
        proof {
            assert(dval(s[j - start]) == d);
        }
        let acc10 = match acc.checked_mul(10) {
            Some(a) => a,
            None => {
                proof {
                    lemma_digits_val_take(ip, j - start + 1);
                    assert(s.subrange(0, j - start + 1) =~= ip.subrange(0, j - start + 1));
                    assert(digits_val(ip) * (SCALE as nat) >= digits_val(ip)) by (nonlinear_arith)
                        requires
                            SCALE >= 1,
                    ;
                }
                return Num::zero();
            },
        };
        let acc2 = match acc10.checked_add(d) {
            Some(a) => a,
            None => {
                proof {
                    lemma_digits_val_take(ip, j - start + 1);
                    assert(s.subrange(0, j - start + 1) =~= ip.subrange(0, j - start + 1));
                    assert(digits_val(ip) * (SCALE as nat) >= digits_val(ip)) by (nonlinear_arith)
                        requires
                            SCALE >= 1,
                    ;
                }
                return Num::zero();
            },
        };
        acc = acc2;
        j = j + 1;
    }
    proof {
        assert(s.subrange(0, dot_idx(s)) =~= ip);
        assert(acc == digits_val(ip));
    }
    // Fractional part: at most nine digits after the point.
    let ghost fp: Seq<char> = if dot_idx(s) < s.len() {
        s.subrange(dot_idx(s) + 1, s.len() as int)
    } else {
        Seq::empty()
    };
    let mut facc: u128 = 0;
    let mut cnt: usize = 0;
    if dot < end {
        let mut k: usize = dot + 1;
        while k < end && cnt < 9
            invariant
                dot < end <= v@.len(),
                s == v@.subrange(start as int, end as int),
                start <= dot,
                dot_idx(s) == dot - start,
                fp == s.subrange(dot_idx(s) + 1, s.len() as int),
                dot + 1 <= k <= end,
                cnt == k - dot - 1,
                facc == digits_val(fp.subrange(0, cnt as int)),
                facc < pow10(cnt as nat),
                cnt <= 9,
                numeral_wf(s),
            decreases end - k,
        {
            proof {
                assert(fp[k - dot - 1] == v@[k as int]);
                assert(fp[cnt as int] == s[dot_idx(s) + 1 + cnt]);
                assert(is_digit(fp[cnt as int]));
                assert(fp.subrange(0, cnt + 1).drop_last() =~= fp.subrange(0, cnt as int));
                lemma_pow10_le(cnt as nat, 9);
                lemma_pow10_le(cnt as nat + 1, 9);
                lemma_pow10_nine();
            }
            let c = v[k];
            let d = (c as u32 - 48) as u128;
            proof {
                assert(dval(fp[cnt as int]) == d);
            }
            facc = facc * 10 + d;
            cnt = cnt + 1;
            k = k + 1;
        }
        proof {
            if cnt < 9 {
                assert(fp.subrange(0, cnt as int) =~= fp);
                assert(cnt == fp.len());
            }
        }
    } else {
        proof {
            assert(fp =~= Seq::<char>::empty());
            assert(fp.subrange(0, 0) =~= fp);
            assert(facc == digits_val(fp.subrange(0, cnt as int)));
            assert(facc < pow10(cnt as nat));
        }
    }
    let f9: u128 = if cnt >= 9 {
        facc
    } else {
        proof {
            lemma_pow10_le((9 - cnt) as nat, 9);
            lemma_pow10_le(cnt as nat, 9);
            lemma_pow10_nine();
            lemma_pow10_mul(cnt as nat, (9 - cnt) as nat);
            assert(facc * pow10((9 - cnt) as nat) < pow10(9)) by (nonlinear_arith)
                requires
                    facc < pow10(cnt as nat),
                    pow10(cnt as nat) >= 1,
                    pow10((9 - cnt) as nat) >= 1,
                    pow10(cnt as nat) * pow10((9 - cnt) as nat) == pow10(9),
            ;
        }
        facc * pow10_exec(9 - cnt)
    };
    proof {
        if fp.len() >= 9 {
            assert(cnt == 9);
            assert(fp.subrange(0, 9) =~= fp.subrange(0, cnt as int));
        } else {
            assert(cnt == fp.len());
        }
        assert(numeral_scaled(s) == digits_val(ip) * (SCALE as nat) + f9);
    }
    let scaled = match acc.checked_mul(SCALE) {
        Some(a) => a,
        None => {
            return Num::zero();
        },
    };
    let mag = match scaled.checked_add(f9) {
        Some(a) => a,
        None => {
            return Num::zero();
        },
    };
    Num { neg: false, mag }
}


proof fn lemma_pow10_nine()
    ensures
        pow10(9) == 1_000_000_000,
{
    reveal_with_fuel(pow10, 10);
}

proof fn lemma_pow10_mul(a: nat, b: nat)
    ensures
        pow10(a) * pow10(b) == pow10(a + b),
    decreases a,
{
    if a > 0 {
        lemma_pow10_mul((a - 1) as nat, b);
        assert(pow10(a + b) == 10 * pow10((a + b - 1) as nat));
        assert((a + b - 1) as nat == (a - 1) as nat + b);
        assert(pow10(a) == 10 * pow10((a - 1) as nat));
        assert((10 * pow10((a - 1) as nat)) * pow10(b) == 10 * (pow10((a - 1) as nat) * pow10(
            b,
        ))) by (nonlinear_arith);
        assert(pow10(a) * pow10(b) == 10 * (pow10((a - 1) as nat) * pow10(b)));
        assert(10 * (pow10((a - 1) as nat) * pow10(b)) == 10 * pow10((a - 1) as nat + b));
        assert(pow10(a) * pow10(b) == pow10(a + b));
    } else {
        assert(pow10(a) == 1);
        assert(pow10(a) * pow10(b) == pow10(b)) by (nonlinear_arith)
            requires
                pow10(a) == 1,
        ;
    }
}

impl Num {
    /// The number's decimal text.
    pub fn to_text(&self) -> (r: String)
        ensures
            r@ == num_text(self@),
    {
        let mut s = String::new();
        if self.neg && self.mag > 0 {
            push_char(&mut s, '-');
        }
        push_dec(&mut s, self.mag / SCALE);
        let fr = self.mag % SCALE;
        if fr > 0 {
            push_char(&mut s, '.');
            let mut v = fixed_digits_exec(fr, 9);
            trim_trailing(&mut v);
            push_chars(&mut s, &v);
        }
        proof {
            assert(iabs(self@) == self.mag);
            assert(s@ =~= num_text(self@));
        }
        s
    }
}

} // verus!
