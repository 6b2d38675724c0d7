use vstd::prelude::*;

verus! {

/// An ASCII decimal digit.
pub open spec fn is_digit(c: char) -> bool {
    '0' <= c <= '9'
}

/// Every character of `s` is a decimal digit.
pub open spec fn all_digits(s: Seq<char>) -> bool {
    forall|i: int| 0 <= i < s.len() ==> is_digit(#[trigger] s[i])
}

/// The value of one decimal digit; zero for any other character.
pub open spec fn digit_value(c: char) -> nat {
    if is_digit(c) {
        (c as nat - '0' as nat) as nat
    } else {
        0
    }
}

/// The number that a string of decimal digits denotes, most significant digit first.
pub open spec fn decimal_value(s: Seq<char>) -> nat
    decreases s.len(),
{
    if s.len() == 0 {
        0
    } else {
        decimal_value(s.drop_last()) * 10 + digit_value(s.last())
    }
}

/// The digits of an unsigned integer token: what is left once one leading `+` is taken off.
pub open spec fn unsigned_body(s: Seq<char>) -> Seq<char> {
    if s.len() > 0 && s[0] == '+' {
        s.skip(1)
    } else {
        s
    }
}

/// The value of a colour token: an optional `+`, then one or more decimal digits
/// whose value fits in 32 bits. Any other token has no value.
pub open spec fn color_value(s: Seq<char>) -> Option<u32> {
    let body = unsigned_body(s);
    if body.len() > 0 && all_digits(body) && decimal_value(body) <= u32::MAX {
        Some(decimal_value(body) as u32)
    } else {
        None
    }
}

/// How often `c` occurs in `s`.
pub open spec fn occurrences(s: Seq<char>, c: char) -> nat
    decreases s.len(),
{
    if s.len() == 0 {
        0
    } else {
        occurrences(s.drop_last(), c) + if s.last() == c {
            1nat
        } else {
            0nat
        }
    }
}

/// An unsigned decimal mantissa: digits around at most one `.`, with at least one digit.
pub open spec fn is_mantissa(s: Seq<char>) -> bool {
    &&& forall|i: int| 0 <= i < s.len() ==> is_digit(#[trigger] s[i]) || s[i] == '.'
    &&& occurrences(s, '.') <= 1
    &&& occurrences(s, '.') < s.len()
}

/// What may follow the exponent marker: an optional sign, then one or more digits.
pub open spec fn is_exponent(s: Seq<char>) -> bool {
    let digits = unsigned_magnitude(s);
    digits.len() > 0 && all_digits(digits)
}

/// What is left of `s` once one leading `+` or `-` is taken off.
pub open spec fn unsigned_magnitude(s: Seq<char>) -> Seq<char> {
    if s.len() > 0 && (s[0] == '+' || s[0] == '-') {
        s.skip(1)
    } else {
        s
    }
}

/// The exponent marker, in either case.
pub open spec fn is_exponent_mark(c: char) -> bool {
    c == 'e' || c == 'E'
}

/// An unsigned decimal number: a mantissa, optionally followed by an exponent.
pub open spec fn is_decimal(s: Seq<char>) -> bool {
    ||| is_mantissa(s)
    ||| exists|e: int|
        0 <= e < s.len() && is_exponent_mark(#[trigger] s[e]) && is_mantissa(s.take(e))
            && is_exponent(s.skip(e + 1))
}

/// `c` is the letter `lower`, in either case; `lower` is a lower-case ASCII letter.
pub open spec fn is_letter(c: char, lower: char) -> bool {
    c == lower || c as int + 32 == lower as int
}

/// `s` spells `word` when case is ignored; `word` is in lower-case ASCII letters.
pub open spec fn spells(s: Seq<char>, word: Seq<char>) -> bool {
    &&& s.len() == word.len()
    &&& forall|i: int| 0 <= i < s.len() ==> is_letter(#[trigger] s[i], word[i])
}

/// One of the three names of a value that is no finite number.
pub open spec fn is_special(s: Seq<char>) -> bool {
    ||| spells(s, seq!['i', 'n', 'f'])
    ||| spells(s, seq!['n', 'a', 'n'])
    ||| spells(s, seq!['i', 'n', 'f', 'i', 'n', 'i', 't', 'y'])
}

/// A numeric field as the line grammar admits it: an optional sign, then a decimal
/// number or one of `inf`, `infinity`, `nan` in any case.
pub open spec fn is_number(s: Seq<char>) -> bool {
    let body = unsigned_magnitude(s);
    is_decimal(body) || is_special(body)
}

proof fn lemma_decimal_value_push(s: Seq<char>, c: char)
    ensures
        decimal_value(s.push(c)) == decimal_value(s) * 10 + digit_value(c),
{
    assert(s.push(c).drop_last() == s);
}

proof fn lemma_decimal_value_grows(s: Seq<char>, n: int)
    requires
        all_digits(s),
        0 <= n <= s.len(),
    ensures
        decimal_value(s.take(n)) <= decimal_value(s),
    decreases s.len() - n,
{
    if n < s.len() {
        lemma_decimal_value_grows(s, n + 1);
        assert(s.take(n + 1) == s.take(n).push(s[n]));
        lemma_decimal_value_push(s.take(n), s[n]);
    } else {
        assert(s.take(n) == s);
    }
}

proof fn lemma_occurrences_push(s: Seq<char>, c: char, d: char)
    ensures
        occurrences(s.push(d), c) == occurrences(s, c) + if d == c {
            1nat
        } else {
            0nat
        },
{
    assert(s.push(d).drop_last() == s);
}

proof fn lemma_occurrences_grows(s: Seq<char>, c: char, n: int)
    requires
        0 <= n <= s.len(),
    ensures
        occurrences(s.take(n), c) <= occurrences(s, c),
    decreases s.len() - n,
{
    if n < s.len() {
        lemma_occurrences_grows(s, c, n + 1);
        assert(s.take(n + 1) == s.take(n).push(s[n]));
        lemma_occurrences_push(s.take(n), c, s[n]);
    } else {
        assert(s.take(n) == s);
    }
}

/// Reads a colour token.
pub fn parse_color(token: &Vec<char>) -> (r: Option<u32>)
    ensures
        r == color_value(token@),
{
    let n: usize = token.len();
    let start: usize = if n > 0 && token[0] == '+' {
        1
    } else {
        0
    };
    let ghost body = unsigned_body(token@);
    assert(body == token@.skip(start as int));
    if start == n {
        return None;
    }
    let mut value: u64 = 0;
    let mut i: usize = start;
    while i < n
        invariant
            start <= i <= n,
            n == token.len(),
            body == token@.skip(start as int),
            body == unsigned_body(token@),
            all_digits(body.take(i - start)),
            value == decimal_value(body.take(i - start)),
            value <= u32::MAX,
        decreases n - i,
    {
        let c = token[i];
        let ghost seen = body.take(i - start);
        assert(body.take(i - start + 1) == seen.push(c));
        if !(c >= '0' && c <= '9') {
            assert(!is_digit(body[i - start]));
            assert(!all_digits(body));
            return None;
        }
        let d: u64 = (c as u32 - '0' as u32) as u64;
        proof {
            lemma_decimal_value_push(seen, c);
            assert forall|k: int| 0 <= k < seen.push(c).len() implies is_digit(
                #[trigger] seen.push(c)[k],
            ) by {
                if k < seen.len() {
                    assert(seen[k] == body.take(i - start)[k]);
                }
            }
        }
        value = value * 10 + d;
        if value > 0xFFFF_FFFF {
            proof {
                if all_digits(body) {
                    lemma_decimal_value_grows(body, i - start + 1);
                    assert(decimal_value(body) > u32::MAX);
                }
            }
            return None;
        }
        i += 1;
    }
    assert(body.take(n - start) == body);
    Some(value as u32)
}

fn digits_in(token: &Vec<char>, from: usize, to: usize) -> (r: bool)
    requires
        from <= to <= token.len(),
    ensures
        r == all_digits(token@.subrange(from as int, to as int)),
{
    let ghost part = token@.subrange(from as int, to as int);
    let mut i: usize = from;
    while i < to
        invariant
            from <= i <= to <= token.len(),
            part == token@.subrange(from as int, to as int),
            all_digits(part.take(i - from)),
        decreases to - i,
    {
        let c = token[i];
        if !(c >= '0' && c <= '9') {
            assert(!is_digit(part[i - from]));
            return false;
        }
        assert forall|k: int| 0 <= k < i - from + 1 implies is_digit(
            #[trigger] part.take(i - from + 1)[k],
        ) by {
            if k < i - from {
                assert(part.take(i - from)[k] == part[k]);
            }
        }
        i += 1;
    }
    assert(part.take(to - from) == part);
    true
}

fn mantissa_in(token: &Vec<char>, from: usize, to: usize) -> (r: bool)
    requires
        from <= to <= token.len(),
    ensures
        r == is_mantissa(token@.subrange(from as int, to as int)),
{
    let ghost part = token@.subrange(from as int, to as int);
    let mut dots: usize = 0;
    let mut i: usize = from;
    while i < to
        invariant
            from <= i <= to <= token.len(),
            part == token@.subrange(from as int, to as int),
            forall|k: int| 0 <= k < i - from ==> is_digit(#[trigger] part[k]) || part[k] == '.',
            dots == occurrences(part.take(i - from), '.'),
            dots <= 1,
        decreases to - i,
    {
        let c = token[i];
        proof {
            assert(part.take(i - from + 1) == part.take(i - from).push(c));
            lemma_occurrences_push(part.take(i - from), '.', c);
        }
        if c == '.' {
            if dots == 1 {
                proof {
                    lemma_occurrences_grows(part, '.', i - from + 1);
                }
                return false;
            }
            dots += 1;
        } else if !(c >= '0' && c <= '9') {
            assert(!is_digit(part[i - from]) && part[i - from] != '.');
            return false;
        }
        i += 1;
    }
    assert(part.take(to - from) == part);
    dots < to - from
}

fn exponent_in(token: &Vec<char>, from: usize, to: usize) -> (r: bool)
    requires
        from <= to <= token.len(),
    ensures
        r == is_exponent(token@.subrange(from as int, to as int)),
{
    let ghost part = token@.subrange(from as int, to as int);
    let start: usize = if from < to && (token[from] == '+' || token[from] == '-') {
        from + 1
    } else {
        from
    };
    assert(unsigned_magnitude(part) == token@.subrange(start as int, to as int));
    start < to && digits_in(token, start, to)
}

fn letter_at(token: &Vec<char>, at: usize, lower: char) -> (r: bool)
    requires
        at < token.len(),
        'a' <= lower <= 'z',
    ensures
        r == is_letter(token@[at as int], lower),
{
    let c = token[at];
    c == lower || (c >= 'A' && c <= 'Z' && c as u32 + 32 == lower as u32)
}

fn special_in(token: &Vec<char>, from: usize) -> (r: bool)
    requires
        from <= token.len(),
    ensures
        r == is_special(token@.skip(from as int)),
{
    let ghost part = token@.skip(from as int);
    let n: usize = token.len() - from;
    if n == 3 {
        let inf = letter_at(token, from, 'i') && letter_at(token, from + 1, 'n') && letter_at(
            token,
            from + 2,
            'f',
        );
        let nan = letter_at(token, from, 'n') && letter_at(token, from + 1, 'a') && letter_at(
            token,
            from + 2,
            'n',
        );
        proof {
            let w_inf = seq!['i', 'n', 'f'];
            let w_nan = seq!['n', 'a', 'n'];
            assert(part[0] == token@[from as int] && part[1] == token@[from + 1] && part[2]
                == token@[from + 2]);
            assert(w_inf[0] == 'i' && w_inf[1] == 'n' && w_inf[2] == 'f');
            assert(w_nan[0] == 'n' && w_nan[1] == 'a' && w_nan[2] == 'n');
            assert(inf == spells(part, w_inf));
            assert(nan == spells(part, w_nan));
        }
        inf || nan
    } else if n == 8 {
        let r = letter_at(token, from, 'i') && letter_at(token, from + 1, 'n') && letter_at(
            token,
            from + 2,
            'f',
        ) && letter_at(token, from + 3, 'i') && letter_at(token, from + 4, 'n') && letter_at(
            token,
            from + 5,
            'i',
        ) && letter_at(token, from + 6, 't') && letter_at(token, from + 7, 'y');
        proof {
            let w = seq!['i', 'n', 'f', 'i', 'n', 'i', 't', 'y'];
            assert(part[0] == token@[from as int] && part[1] == token@[from + 1] && part[2]
                == token@[from + 2] && part[3] == token@[from + 3] && part[4] == token@[from + 4]
                && part[5] == token@[from + 5] && part[6] == token@[from + 6] && part[7]
                == token@[from + 7]);
            assert(w[0] == 'i' && w[1] == 'n' && w[2] == 'f' && w[3] == 'i' && w[4] == 'n' && w[5]
                == 'i' && w[6] == 't' && w[7] == 'y');
            assert(r == spells(part, w));
        }
        r
    } else {
        false
    }
}

/// Tells whether `token` is a numeric field.
pub fn is_numeric(token: &Vec<char>) -> (r: bool)
    ensures
        r == is_number(token@),
{
    let n: usize = token.len();
    let start: usize = if n > 0 && (token[0] == '+' || token[0] == '-') {
        1
    } else {
        0
    };
    let ghost body = unsigned_magnitude(token@);
    assert(body == token@.skip(start as int));
    assert(body == token@.subrange(start as int, n as int));
    if special_in(token, start) {
        return true;
    }
    let mut mark: usize = start;
    while mark < n && token[mark] != 'e' && token[mark] != 'E'
        invariant
            start <= mark <= n,
            n == token.len(),
            forall|k: int| start <= k < mark ==> !is_exponent_mark(#[trigger] token@[k]),
        decreases n - mark,
    {
        mark += 1;
    }
    let mantissa = mantissa_in(token, start, mark);
    if mark == n {
        proof {
            assert forall|e: int| 0 <= e < body.len() implies !is_exponent_mark(
                #[trigger] body[e],
            ) by {
                assert(body[e] == token@[start + e]);
            }
        }
        return mantissa;
    }
    let exponent = exponent_in(token, mark + 1, n);
    proof {
        let m = mark - start;
        assert(body.take(m) == token@.subrange(start as int, mark as int));
        assert(body.skip(m + 1) == token@.subrange(mark + 1, n as int));
        assert(body[m] == token@[mark as int]);
        assert(!is_mantissa(body)) by {
            assert(!is_digit(body[m]) && body[m] != '.');
        }
        assert forall|e: int|
            0 <= e < body.len() && is_exponent_mark(#[trigger] body[e]) && is_mantissa(
                body.take(e),
            ) implies e == m by {
            assert(body[e] == token@[start + e]);
            if m < e {
                assert(body.take(e)[m] == body[m]);
            }
        }
    }
    mantissa && exponent
}

} // verus!
