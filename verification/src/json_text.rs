use vstd::prelude::*;

verus! {

// ---------------------------------------------------------------------------
// Character classes
// ---------------------------------------------------------------------------

/// The whitespace characters that JSON allows between tokens.
pub open spec fn is_ws(c: char) -> bool {
    c == ' ' || c == '\n' || c == '\t' || c == '\r'
}

pub open spec fn is_digit(c: char) -> bool {
    48 <= (c as u32) && (c as u32) <= 57
}

pub open spec fn digit_val(c: char) -> int {
    (c as u32) - 48
}

/// Characters that may occur in a JSON number token; the number lexer takes
/// the longest run of these.
pub open spec fn is_num_char(c: char) -> bool {
    is_digit(c) || c == '-' || c == '+' || c == '.' || c == 'e' || c == 'E'
}

pub fn ws_char(c: char) -> (r: bool)
    ensures
        r == is_ws(c),
{
    c == ' ' || c == '\n' || c == '\t' || c == '\r'
}

pub fn digit_char_test(c: char) -> (r: bool)
    ensures
        r == is_digit(c),
{
    let u = c as u32;
    48 <= u && u <= 57
}

pub fn num_char_test(c: char) -> (r: bool)
    ensures
        r == is_num_char(c),
{
    digit_char_test(c) || c == '-' || c == '+' || c == '.' || c == 'e' || c == 'E'
}

// ---------------------------------------------------------------------------
// Runs: whitespace, digits, number characters
// ---------------------------------------------------------------------------

/// First position at or after `i` that does not hold whitespace.
pub open spec fn skip_ws(s: Seq<char>, i: int) -> int
    decreases s.len() - i when 0 <= i <= s.len()
{
    if i < s.len() && is_ws(s[i]) {
        skip_ws(s, i + 1)
    } else {
        i
    }
}

pub proof fn lemma_skip_ws_bounds(s: Seq<char>, i: int)
    requires
        0 <= i <= s.len(),
    ensures
        i <= skip_ws(s, i) <= s.len(),
        skip_ws(s, i) < s.len() ==> !is_ws(s[skip_ws(s, i)]),
        forall|k: int| i <= k < skip_ws(s, i) ==> is_ws(s[k]),
    decreases s.len() - i,
{
    if i < s.len() && is_ws(s[i]) {
        lemma_skip_ws_bounds(s, i + 1);
    }
}

/// A run of whitespace from `i` to `j`, with `j` at the end of the input or
/// at a non-whitespace character, is exactly what `skip_ws` passes over.
pub proof fn lemma_skip_ws_runs_to(s: Seq<char>, i: int, j: int)
    requires
        0 <= i <= j <= s.len(),
        forall|k: int| i <= k < j ==> is_ws(s[k]),
        j == s.len() || !is_ws(s[j]),
    ensures
        skip_ws(s, i) == j,
    decreases j - i,
{
    if i < j {
        assert(is_ws(s[i]));
        lemma_skip_ws_runs_to(s, i + 1, j);
    }
}

/// First position at or after `i` that does not hold a digit.
pub open spec fn digits_end(s: Seq<char>, i: int) -> int
    decreases s.len() - i when 0 <= i <= s.len()
{
    if i < s.len() && is_digit(s[i]) {
        digits_end(s, i + 1)
    } else {
        i
    }
}

pub proof fn lemma_digits_end_bounds(s: Seq<char>, i: int)
    requires
        0 <= i <= s.len(),
    ensures
        i <= digits_end(s, i) <= s.len(),
        digits_end(s, i) < s.len() ==> !is_digit(s[digits_end(s, i)]),
        forall|k: int| i <= k < digits_end(s, i) ==> is_digit(s[k]),
    decreases s.len() - i,
{
    if i < s.len() && is_digit(s[i]) {
        lemma_digits_end_bounds(s, i + 1);
    }
}

pub proof fn lemma_digits_end_runs_to(s: Seq<char>, i: int, j: int)
    requires
        0 <= i <= j <= s.len(),
        forall|k: int| i <= k < j ==> is_digit(s[k]),
        j == s.len() || !is_digit(s[j]),
    ensures
        digits_end(s, i) == j,
    decreases j - i,
{
    if i < j {
        assert(is_digit(s[i]));
        lemma_digits_end_runs_to(s, i + 1, j);
    }
}

/// First position at or after `i` that does not hold a number character.
pub open spec fn num_end(s: Seq<char>, i: int) -> int
    decreases s.len() - i when 0 <= i <= s.len()
{
    if i < s.len() && is_num_char(s[i]) {
        num_end(s, i + 1)
    } else {
        i
    }
}

pub proof fn lemma_num_end_bounds(s: Seq<char>, i: int)
    requires
        0 <= i <= s.len(),
    ensures
        i <= num_end(s, i) <= s.len(),
        num_end(s, i) < s.len() ==> !is_num_char(s[num_end(s, i)]),
        forall|k: int| i <= k < num_end(s, i) ==> is_num_char(s[k]),
    decreases s.len() - i,
{
    if i < s.len() && is_num_char(s[i]) {
        lemma_num_end_bounds(s, i + 1);
    }
}

pub proof fn lemma_num_end_runs_to(s: Seq<char>, i: int, j: int)
    requires
        0 <= i <= j <= s.len(),
        forall|k: int| i <= k < j ==> is_num_char(s[k]),
        j == s.len() || !is_num_char(s[j]),
    ensures
        num_end(s, i) == j,
    decreases j - i,
{
    if i < j {
        assert(is_num_char(s[i]));
        lemma_num_end_runs_to(s, i + 1, j);
    }
}

// ---------------------------------------------------------------------------
// The JSON number grammar
// ---------------------------------------------------------------------------

/// End of the optional fraction part starting at `i`, or -1 when a bare `.`
/// has no digits after it.
pub open spec fn frac_end(t: Seq<char>, i: int) -> int {
    if 0 <= i < t.len() && t[i] == '.' {
        let j = digits_end(t, i + 1);
        if j == i + 1 {
            -1
        } else {
            j
        }
    } else {
        i
    }
}

/// End of the optional exponent part starting at `i`, or -1 when malformed.
pub open spec fn exp_end(t: Seq<char>, i: int) -> int {
    if 0 <= i < t.len() && (t[i] == 'e' || t[i] == 'E') {
        let k = if i + 1 < t.len() && (t[i + 1] == '+' || t[i + 1] == '-') {
            i + 2
        } else {
            i + 1
        };
        let j = digits_end(t, k);
        if j == k {
            -1
        } else {
            j
        }
    } else {
        i
    }
}

/// `t` matches the JSON number grammar:
/// `-? (0 | [1-9][0-9]*) (. [0-9]+)? ([eE][+-]?[0-9]+)?`.
pub open spec fn wf_num(t: Seq<char>) -> bool {
    let n = t.len() as int;
    if n == 0 {
        false
    } else {
        let i0: int = if t[0] == '-' { 1 } else { 0 };
        let i1 = digits_end(t, i0);
        if i1 == i0 {
            false
        } else if t[i0] == '0' && i1 != i0 + 1 {
            false
        } else {
            let i2 = frac_end(t, i1);
            if i2 < 0 {
                false
            } else {
                exp_end(t, i2) == n
            }
        }
    }
}

/// Every character of a well-formed number token is a number character.
pub proof fn lemma_wf_num_chars(t: Seq<char>)
    requires
        wf_num(t),
    ensures
        forall|k: int| 0 <= k < t.len() ==> is_num_char(t[k]),
{
    let n = t.len() as int;
    let i0: int = if t[0] == '-' { 1 } else { 0 };
    let i1 = digits_end(t, i0);
    lemma_digits_end_bounds(t, i0);
    let i2 = frac_end(t, i1);
    if i1 < n && t[i1] == '.' {
        lemma_digits_end_bounds(t, i1 + 1);
    }
    assert(i1 <= i2 <= n);
    assert(forall|k: int| i1 <= k < i2 ==> is_num_char(t[k]));
    if i2 < n && (t[i2] == 'e' || t[i2] == 'E') {
        let k0 = if i2 + 1 < n && (t[i2 + 1] == '+' || t[i2 + 1] == '-') {
            i2 + 2
        } else {
            i2 + 1
        };
        lemma_digits_end_bounds(t, k0);
        assert(forall|k: int| i2 <= k < n ==> is_num_char(t[k]));
    } else {
        assert(exp_end(t, i2) == i2);
    }
}

// ---------------------------------------------------------------------------
// Decimal representation of unsigned integers
// ---------------------------------------------------------------------------

pub open spec fn digit_char(d: int) -> char {
    if d == 0 {
        '0'
    } else if d == 1 {
        '1'
    } else if d == 2 {
        '2'
    } else if d == 3 {
        '3'
    } else if d == 4 {
        '4'
    } else if d == 5 {
        '5'
    } else if d == 6 {
        '6'
    } else if d == 7 {
        '7'
    } else if d == 8 {
        '8'
    } else {
        '9'
    }
}

pub proof fn lemma_digit_char_val(d: int)
    requires
        0 <= d < 10,
    ensures
        is_digit(digit_char(d)),
        digit_val(digit_char(d)) == d,
{
}

/// The canonical decimal digits of `n`, most significant first.
pub open spec fn dec_digits(n: nat) -> Seq<char>
    decreases n,
{
    if n < 10 {
        seq![digit_char(n as int)]
    } else {
        dec_digits(n / 10).push(digit_char((n % 10) as int))
    }
}

/// The value of a sequence of decimal digits.
pub open spec fn dec_val(t: Seq<char>) -> int
    decreases t.len(),
{
    if t.len() == 0 {
        0
    } else {
        dec_val(t.drop_last()) * 10 + digit_val(t.last())
    }
}

/// `t` is the canonical decimal form of a value that fits in a `u32`.
pub open spec fn is_dec_u32(t: Seq<char>) -> bool {
    &&& t.len() > 0
    &&& forall|k: int| 0 <= k < t.len() ==> is_digit(t[k])
    &&& (t[0] == '0' ==> t.len() == 1)
    &&& dec_val(t) <= u32::MAX
}

pub proof fn lemma_dec_digits_shape(n: nat)
    ensures
        dec_digits(n).len() >= 1,
        forall|k: int| 0 <= k < dec_digits(n).len() ==> is_digit(dec_digits(n)[k]),
        dec_digits(n)[0] == '0' ==> n == 0,
        n == 0 ==> dec_digits(n) == seq!['0'],
    decreases n,
{
    lemma_digit_char_val((n % 10) as int);
    if n < 10 {
        lemma_digit_char_val(n as int);
    } else {
        lemma_dec_digits_shape(n / 10);
    }
}

/// Reading back the canonical decimal digits of `n` yields `n`.
pub proof fn lemma_dec_roundtrip(n: nat)
    ensures
        dec_val(dec_digits(n)) == n,
    decreases n,
{
    if n < 10 {
        let t = dec_digits(n);
        lemma_digit_char_val(n as int);
        assert(t.drop_last() =~= Seq::<char>::empty());
        assert(t.last() == digit_char(n as int));
        assert(dec_val(Seq::<char>::empty()) == 0);
        assert(dec_val(t) == dec_val(t.drop_last()) * 10 + digit_val(t.last()));
    } else {
        lemma_dec_roundtrip(n / 10);
        lemma_digit_char_val((n % 10) as int);
        let t = dec_digits(n / 10).push(digit_char((n % 10) as int));
        assert(t.drop_last() =~= dec_digits(n / 10));
        assert(dec_digits(n) == t);
        assert(dec_val(t) == dec_val(t.drop_last()) * 10 + digit_val(t.last()));
        assert(dec_val(t) == dec_val(dec_digits(n / 10)) * 10 + (n % 10));
        assert((n / 10) * 10 + n % 10 == n) by (nonlinear_arith);
    }
}

/// The canonical decimal form of a `u32` is well formed both as a decimal
/// token and as a JSON number token.
pub proof fn lemma_dec_digits_wf(n: u32)
    ensures
        is_dec_u32(dec_digits(n as nat)),
        wf_num(dec_digits(n as nat)),
{
    let t = dec_digits(n as nat);
    lemma_dec_digits_shape(n as nat);
    lemma_dec_roundtrip(n as nat);
    lemma_digits_end_runs_to(t, 0, t.len() as int);
    assert(digits_end(t, 0) == t.len());
    if t[0] == '0' {
        assert(n == 0);
    }
    assert(frac_end(t, t.len() as int) == t.len());
    assert(exp_end(t, t.len() as int) == t.len());
}

/// A digit prefix extended by one digit multiplies the value by ten.
pub proof fn lemma_dec_val_snoc(t: Seq<char>, c: char)
    ensures
        dec_val(t.push(c)) == dec_val(t) * 10 + digit_val(c),
{
    assert(t.push(c).drop_last() =~= t);
    assert(t.push(c).last() == c);
}

// ---------------------------------------------------------------------------
// Executable decimal conversion
// ---------------------------------------------------------------------------

fn digit_of(d: u32) -> (c: char)
    requires
        d < 10,
    ensures
        c == digit_char(d as int),
{
    if d == 0 {
        '0'
    } else if d == 1 {
        '1'
    } else if d == 2 {
        '2'
    } else if d == 3 {
        '3'
    } else if d == 4 {
        '4'
    } else if d == 5 {
        '5'
    } else if d == 6 {
        '6'
    } else if d == 7 {
        '7'
    } else if d == 8 {
        '8'
    } else {
        '9'
    }
}

/// Writes the canonical decimal digits of `n` to `out`.
pub fn push_dec_u32(n: u32, out: &mut Vec<char>)
    ensures
        final(out)@ == old(out)@ + dec_digits(n as nat),
    decreases n,
{
    if n < 10 {
        let c = digit_of(n);
        out.push(c);
    } else {
        push_dec_u32(n / 10, out);
        let c = digit_of(n % 10);
        out.push(c);

    }
}

/// Reads a canonical decimal `u32` token; `None` exactly on tokens that are
/// not the canonical decimal form of a value in range.
pub fn parse_dec_u32(t: &Vec<char>, from: usize, to: usize) -> (r: Option<u32>)
    requires
        from <= to <= t@.len(),
    ensures
        match r {
            Some(v) => is_dec_u32(t@.subrange(from as int, to as int)) && v == dec_val(
                t@.subrange(from as int, to as int),
            ),
            None => !is_dec_u32(t@.subrange(from as int, to as int)),
        },
{
    let ghost tok = t@.subrange(from as int, to as int);
    if from == to {
        return None;
    }
    let c0 = t[from];
    assert(tok[0] == t@[from as int]);
    if !(48 <= (c0 as u32) && (c0 as u32) <= 57) {
        assert(!is_digit(tok[0]));
        return None;
    }
    if c0 == '0' && to - from > 1 {
        assert(tok[0] == '0' && tok.len() > 1);
        return None;
    }
    let mut acc: u32 = 0;
    let mut k: usize = from;
    assert(t@.subrange(from as int, from as int) =~= Seq::<char>::empty());
    while k < to
        invariant
            from <= k <= to <= t@.len(),
            tok == t@.subrange(from as int, to as int),
            forall|j: int| from <= j < k ==> is_digit(t@[j]),
            acc == dec_val(t@.subrange(from as int, k as int)),
        decreases to - k,
    {
        let c = t[k];
        let u = c as u32;
        assert(tok[k - from] == t@[k as int]);
        if !(48 <= u && u <= 57) {
            assert(!is_digit(tok[k - from]));
            return None;
        }
        let d = u - 48;
        if acc > (u32::MAX - d) / 10 {
            proof {
                lemma_dec_val_snoc(t@.subrange(from as int, k as int), t@[k as int]);
                assert(t@.subrange(from as int, k as int + 1) =~= t@.subrange(
                    from as int,
                    k as int,
                ).push(t@[k as int]));
                assert(dec_val(t@.subrange(from as int, k as int + 1)) == acc * 10 + d);
                assert(acc * 10 + d > u32::MAX) by (nonlinear_arith)
                    requires
                        acc > (u32::MAX - d) / 10,
                        d < 10;
                if forall|j: int| from <= j < to ==> is_digit(t@[j]) {
                    lemma_dec_val_mono(t@, from as int, k as int + 1, to as int);
                    assert(dec_val(tok) > u32::MAX);
                } else {
                    let j = choose|j: int| from <= j < to && !is_digit(t@[j]);
                    assert(tok[j - from] == t@[j]);
                    assert(!is_digit(tok[j - from]));
                }
            }
            return None;
        }
        proof {
            lemma_dec_val_snoc(t@.subrange(from as int, k as int), t@[k as int]);
            assert(t@.subrange(from as int, k as int + 1) =~= t@.subrange(
                from as int,
                k as int,
            ).push(t@[k as int]));
            assert(acc * 10 + d <= u32::MAX) by (nonlinear_arith)
                requires
                    acc <= (u32::MAX - d) / 10,
                    d < 10,
            ;
        }
        acc = acc * 10 + d;
        k = k + 1;
    }
    proof {
        assert(forall|j: int| 0 <= j < tok.len() ==> tok[j] == t@[from + j]);
        assert(forall|j: int| 0 <= j < tok.len() ==> is_digit(tok[j]));
        assert(dec_val(tok) == acc);
    }
    Some(acc)
}

/// The value of a longer digit string is at least the value of its prefix.
proof fn lemma_dec_val_mono(s: Seq<char>, from: int, mid: int, to: int)
    requires
        0 <= from <= mid <= to <= s.len(),
        forall|j: int| from <= j < to ==> is_digit(s[j]),
    ensures
        dec_val(s.subrange(from, to)) >= dec_val(s.subrange(from, mid)),
        dec_val(s.subrange(from, mid)) >= 0,
    decreases to - mid,
{
    lemma_dec_val_nonneg(s.subrange(from, mid));
    if mid < to {
        lemma_dec_val_mono(s, from, mid + 1, to);
        lemma_dec_val_snoc(s.subrange(from, mid), s[mid]);
        assert(s.subrange(from, mid + 1) =~= s.subrange(from, mid).push(s[mid]));
        lemma_dec_val_nonneg(s.subrange(from, mid));
        assert(dec_val(s.subrange(from, mid)) * 10 >= dec_val(s.subrange(from, mid)))
            by (nonlinear_arith)
            requires
                dec_val(s.subrange(from, mid)) >= 0;
    }
}

proof fn lemma_dec_val_nonneg(t: Seq<char>)
    requires
        forall|k: int| 0 <= k < t.len() ==> is_digit(t[k]),
    ensures
        dec_val(t) >= 0,
    decreases t.len(),
{
    if t.len() > 0 {
        assert(forall|k: int| 0 <= k < t.drop_last().len() ==> is_digit(t.drop_last()[k]));
        lemma_dec_val_nonneg(t.drop_last());
        assert(is_digit(t.last()));
        assert(dec_val(t.drop_last()) * 10 >= 0) by (nonlinear_arith)
            requires
                dec_val(t.drop_last()) >= 0;
    }
}

} // verus!
