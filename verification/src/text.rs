use vstd::prelude::*;

verus! {

/// Whether `c` is a decimal digit.
pub open spec fn is_digit(c: char) -> bool {
    '0' as int <= c as int <= '9' as int
}

/// Numeric value of a digit character.
pub open spec fn digit_val(c: char) -> int {
    c as int - '0' as int
}

/// Whether every character of `s` is a decimal digit.
pub open spec fn all_digits(s: Seq<char>) -> bool {
    forall|i: int| 0 <= i < s.len() ==> is_digit(#[trigger] s[i])
}

/// The value of a digit string read in base ten.
pub open spec fn dec_value(s: Seq<char>) -> int
    decreases s.len(),
{
    if s.len() == 0 {
        0
    } else {
        dec_value(s.drop_last()) * 10 + digit_val(s.last())
    }
}

/// Whether `s` is a decimal integer: an optional minus sign, then at
/// least one digit.
pub open spec fn int_text_valid(s: Seq<char>) -> bool {
    if s.len() > 0 && s[0] == '-' {
        s.len() > 1 && all_digits(s.subrange(1, s.len() as int))
    } else {
        s.len() > 0 && all_digits(s)
    }
}

/// The signed value of a decimal integer text.
pub open spec fn int_text_value(s: Seq<char>) -> int {
    if s.len() > 0 && s[0] == '-' {
        -dec_value(s.subrange(1, s.len() as int))
    } else {
        dec_value(s)
    }
}

/// Index of the first occurrence of `sep` in `s`, or `s.len()` if absent.
pub open spec fn first_index(s: Seq<char>, sep: char) -> int
    decreases s.len(),
{
    if s.len() == 0 {
        0
    } else if s[0] == sep {
        0
    } else {
        1 + first_index(s.drop_first(), sep)
    }
}

/// The pieces of `s` between occurrences of `sep`; empty pieces are kept,
/// and the empty string yields one empty piece.
pub open spec fn split_spec(s: Seq<char>, sep: char) -> Seq<Seq<char>>
    decreases s.len(),
{
    let i = first_index(s, sep);
    if i < 0 || i >= s.len() {
        seq![s]
    } else {
        seq![s.subrange(0, i)] + split_spec(s.subrange(i + 1, s.len() as int), sep)
    }
}

/// A scan that stops at position `k` identifies the first occurrence.
pub proof fn lemma_first_index_at(s: Seq<char>, sep: char, k: int)
    requires
        0 <= k <= s.len(),
        forall|j: int| 0 <= j < k ==> s[j] != sep,
        k < s.len() ==> s[k] == sep,
    ensures
        first_index(s, sep) == k,
    decreases s.len(),
{
    if k > 0 {
        let t = s.drop_first();
        assert(forall|j: int| 0 <= j < k - 1 ==> t[j] == s[j + 1] && t[j] != sep);
        if k - 1 < t.len() {
            assert(t[k - 1] == s[k]);
        }
        lemma_first_index_at(t, sep, k - 1);
    }
}

/// Base-ten accumulation: reading one more digit multiplies by ten.
pub proof fn lemma_dec_value_extend(s: Seq<char>, k: int)
    requires
        0 <= k < s.len(),
    ensures
        dec_value(s.subrange(0, k + 1)) == dec_value(s.subrange(0, k)) * 10 + digit_val(s[k]),
{
    let p = s.subrange(0, k + 1);
    assert(p.drop_last() =~= s.subrange(0, k));
}

/// A digit string's value is non-negative.
pub proof fn lemma_dec_value_nonneg(s: Seq<char>)
    requires
        all_digits(s),
    ensures
        dec_value(s) >= 0,
    decreases s.len(),
{
    if s.len() > 0 {
        let p = s.drop_last();
        assert(all_digits(p));
        lemma_dec_value_nonneg(p);
    }
}

/// A digit string's value is at least the value of any prefix.
pub proof fn lemma_dec_value_prefix_le(s: Seq<char>, k: int)
    requires
        all_digits(s),
        0 <= k <= s.len(),
    ensures
        dec_value(s.subrange(0, k)) <= dec_value(s),
    decreases s.len() - k,
{
    if k == s.len() {
        assert(s.subrange(0, k) =~= s);
    } else {
        let p = s.subrange(0, k);
        assert(all_digits(p));
        lemma_dec_value_nonneg(p);
        lemma_dec_value_extend(s, k);
        lemma_dec_value_prefix_le(s, k + 1);
    }
}

/// The position of the next `sep` at or after `from`, or the length if
/// there is none before the end.
fn scan_for(s: &str, sep: char, from: usize) -> (idx: usize)
    requires
        from <= s@.len(),
    ensures
        from <= idx <= s@.len(),
        forall|j: int| from <= j < idx ==> s@[j] != sep,
        idx < s@.len() ==> s@[idx as int] == sep,
{
    let n = s.unicode_len();
    let mut i: usize = from;
    while i < n
        invariant
            from <= i <= n,
            n == s@.len(),
            forall|j: int| from <= j < i ==> s@[j] != sep,
        decreases n - i,
    {
        if s.get_char(i) == sep {
            return i;
        }
        i += 1;
    }
    i
}

/// Split `s` at every occurrence of `sep`, keeping empty pieces.
pub fn split_char(s: &str, sep: char) -> (r: Vec<String>)
    ensures
        r.deep_view() == split_spec(s@, sep),
{
    let n = s.unicode_len();
    let mut out: Vec<String> = Vec::new();
    let mut start: usize = 0;
    proof {
        assert(s@.subrange(0, n as int) =~= s@);
        assert(out.deep_view() + split_spec(s@, sep) =~= split_spec(s@, sep));
    }
    loop
        invariant
            0 <= start <= n,
            n == s@.len(),
            out.deep_view() + split_spec(s@.subrange(start as int, n as int), sep) == split_spec(
                s@,
                sep,
            ),
        decreases n - start,
    {
        let i = scan_for(s, sep, start);
        let ghost rem = s@.subrange(start as int, n as int);
        proof {
            assert(forall|j: int| 0 <= j < i - start ==> rem[j] == s@[j + start] && rem[j] != sep);
            if i < n {
                assert(rem[i - start] == s@[i as int]);
            }
            lemma_first_index_at(rem, sep, i - start);
        }
        let piece = s.substring_char(start, i).to_owned();
        out.push(piece);
        if i == n {
            proof {
                assert(split_spec(rem, sep) =~= seq![rem]);
                assert(piece@ =~= rem);
                assert(out.deep_view() =~= split_spec(s@, sep));
            }
            return out;
        }
        proof {
            let tail = rem.subrange(i - start + 1, rem.len() as int);
            assert(rem.subrange(0, i - start) =~= s@.subrange(start as int, i as int));
            assert(piece@ =~= rem.subrange(0, i - start));
            assert(tail =~= s@.subrange(i + 1, n as int));
            assert(out.deep_view() + split_spec(s@.subrange(i + 1, n as int), sep) =~= split_spec(
                s@,
                sep,
            ));
        }
        start = i + 1;
    }
}

/// Parse a decimal integer with an optional minus sign into an `i32`;
/// `None` exactly when the text is not such an integer or its value does
/// not fit.
pub fn parse_i32(s: &str) -> (r: Option<i32>)
    ensures
        r is Some <==> int_text_valid(s@) && i32::MIN <= int_text_value(s@) <= i32::MAX,
        r matches Some(v) ==> v as int == int_text_value(s@),
{
    let n = s.unicode_len();
    if n == 0 {
        return Option::None;
    }
    let neg = s.get_char(0) == '-';
    let start: usize = if neg {
        1
    } else {
        0
    };
    if start == n {
        return Option::None;
    }
    let ghost digits = s@.subrange(start as int, n as int);
    proof {
        if neg {
            assert(digits =~= s@.subrange(1, s@.len() as int));
        } else {
            assert(digits =~= s@);
        }
    }
    let mut acc: u64 = 0;
    let mut i: usize = start;
    while i < n
        invariant
            start <= i <= n,
            n == s@.len(),
            start < n,
            digits == s@.subrange(start as int, n as int),
            neg ==> start == 1 && s@[0] == '-',
            !neg ==> start == 0 && s@[0] != '-',
            int_text_valid(s@) ==> all_digits(digits),
            int_text_value(s@) == if neg {
                -dec_value(digits)
            } else {
                dec_value(digits)
            },
            all_digits(digits.subrange(0, i - start)),
            acc as int == dec_value(digits.subrange(0, i - start)),
            acc <= u32::MAX as u64,
        decreases n - i,
    {
        let c = s.get_char(i);
        let code: u32 = c as u32;
        if code < 48 || code > 57 {
            proof {
                if int_text_valid(s@) {
                    assert(is_digit(digits[i - start]));
                    assert(digits[i - start] == s@[i as int]);
                }
            }
            return Option::None;
        }
        let d: u64 = (code - 48) as u64;
        acc = acc * 10 + d;
        proof {
            let pre = digits.subrange(0, i - start);
            let post = digits.subrange(0, i - start + 1);
            assert(post.drop_last() =~= pre);
            assert(post.last() == s@[i as int]);
            assert(digit_val(s@[i as int]) == d as int);
            assert(all_digits(post));
        }
        i += 1;
        if acc > u32::MAX as u64 {
            proof {
                if int_text_valid(s@) {
                    assert(digits.subrange(0, i - start) =~= digits.subrange(0, i - start));
                    lemma_dec_value_prefix_le(digits, i - start);
                    lemma_dec_value_nonneg(digits);
                }
            }
            return Option::None;
        }
    }
    proof {
        assert(digits.subrange(0, i - start) =~= digits);
    }
    if neg {
        if acc > 2147483648u64 {
            return Option::None;
        }
        let v: i32 = (-(acc as i64)) as i32;
        Option::Some(v)
    } else {
        if acc > i32::MAX as u64 {
            return Option::None;
        }
        Option::Some(acc as i32)
    }
}

/// Milliseconds encoded by the first three fractional digits of a decimal
/// clock text.
pub open spec fn frac_millis(f: Seq<char>) -> int {
    (if f.len() > 0 {
        digit_val(f[0]) * 100
    } else {
        0
    }) + (if f.len() > 1 {
        digit_val(f[1]) * 10
    } else {
        0
    }) + (if f.len() > 2 {
        digit_val(f[2])
    } else {
        0
    })
}

/// The sign-stripped body of a clock text.
pub open spec fn clock_body(s: Seq<char>) -> Seq<char> {
    if s.len() > 0 && s[0] == '-' {
        s.subrange(1, s.len() as int)
    } else {
        s
    }
}

/// Whether `s` is a decimal clock value: an optional minus sign, then
/// digits, or digits around a single point with digits on at least one
/// side.
pub open spec fn clock_text_valid(s: Seq<char>) -> bool {
    let body = clock_body(s);
    let i = first_index(body, '.');
    &&& body.len() > 0
    &&& if i >= body.len() {
        all_digits(body)
    } else {
        &&& body.len() > 1
        &&& all_digits(body.subrange(0, i))
        &&& all_digits(body.subrange(i + 1, body.len() as int))
    }
}

/// The whole-second part of a clock text, read from its body.
pub open spec fn clock_whole_value(s: Seq<char>) -> int {
    let body = clock_body(s);
    let i = first_index(body, '.');
    if i >= body.len() {
        dec_value(body)
    } else {
        dec_value(body.subrange(0, i))
    }
}

/// The clock text's value in milliseconds, truncated after the third
/// fractional digit; a negative clock reads as zero.
pub open spec fn clock_millis(s: Seq<char>) -> int {
    if s.len() > 0 && s[0] == '-' {
        0
    } else {
        let body = clock_body(s);
        let i = first_index(body, '.');
        if i >= body.len() {
            dec_value(body) * 1000
        } else {
            dec_value(body.subrange(0, i)) * 1000 + frac_millis(
                body.subrange(i + 1, body.len() as int),
            )
        }
    }
}

/// Parse a decimal clock text into milliseconds; `None` exactly when the
/// text is not such a value or its whole-second part exceeds `u32::MAX`.
pub fn parse_clock_millis(s: &str) -> (r: Option<u64>)
    ensures
        r is Some <==> clock_text_valid(s@) && clock_whole_value(s@) <= u32::MAX as int,
        r matches Some(v) ==> v as int == clock_millis(s@),
{
    let n = s.unicode_len();
    if n == 0 {
        return Option::None;
    }
    let neg = s.get_char(0) == '-';
    let start: usize = if neg {
        1
    } else {
        0
    };
    let ghost body = clock_body(s@);
    proof {
        if neg {
            assert(body =~= s@.subrange(start as int, n as int));
        } else {
            assert(body =~= s@.subrange(start as int, n as int));
        }
    }
    if start == n {
        proof {
            assert(body.len() == 0);
        }
        return Option::None;
    }
    let dot = scan_for(s, '.', start);
    proof {
        assert(forall|j: int| 0 <= j < dot - start ==> body[j] == s@[j + start] && body[j] != '.');
        if dot < n {
            assert(body[dot - start] == s@[dot as int]);
        }
        lemma_first_index_at(body, '.', dot - start);
    }
    if dot == start && dot + 1 == n {
        // A bare point has digits on neither side.
        return Option::None;
    }
    let ghost whole = body.subrange(0, dot - start);
    proof {
        if dot == n {
            assert(whole =~= body);
        }
        if clock_text_valid(s@) {
            assert(all_digits(whole));
        }
    }
    let mut acc: u64 = 0;
    let mut i: usize = start;
    while i < dot
        invariant
            start <= i <= dot <= n,
            n == s@.len(),
            start < n,
            body == clock_body(s@),
            body == s@.subrange(start as int, n as int),
            whole == body.subrange(0, dot - start),
            clock_whole_value(s@) == dec_value(whole),
            clock_text_valid(s@) ==> all_digits(whole),
            all_digits(whole.subrange(0, i - start)),
            acc as int == dec_value(whole.subrange(0, i - start)),
            acc <= u32::MAX as u64,
        decreases dot - i,
    {
        let c = s.get_char(i);
        let code: u32 = c as u32;
        if code < 48 || code > 57 {
            proof {
                if clock_text_valid(s@) {
                    assert(is_digit(whole[i - start]));
                    assert(whole[i - start] == s@[i as int]);
                }
            }
            return Option::None;
        }
        let d: u64 = (code - 48) as u64;
        acc = acc * 10 + d;
        proof {
            let pre = whole.subrange(0, i - start);
            let post = whole.subrange(0, i - start + 1);
            assert(post.drop_last() =~= pre);
            assert(post.last() == s@[i as int]);
            assert(digit_val(s@[i as int]) == d as int);
            assert(all_digits(post));
        }
        i += 1;
        if acc > u32::MAX as u64 {
            proof {
                if clock_text_valid(s@) {
                    lemma_dec_value_prefix_le(whole, i - start);
                    lemma_dec_value_nonneg(whole);
                }
            }
            return Option::None;
        }
    }
    proof {
        assert(whole.subrange(0, i - start) =~= whole);
    }
    let mut millis: u64 = acc * 1000;
    if dot < n {
        let ghost frac = body.subrange(dot - start + 1, body.len() as int);
        let mut k: usize = dot + 1;
        let mut scale: u64 = 100;
        while k < n
            invariant
                dot + 1 <= k <= n,
                n == s@.len(),
                start <= dot < n,
                body == clock_body(s@),
                body == s@.subrange(start as int, n as int),
                frac == body.subrange(dot - start + 1, body.len() as int),
                clock_text_valid(s@) ==> all_digits(frac),
                all_digits(frac.subrange(0, k - dot - 1)),
                acc <= u32::MAX as u64,
                millis as int == acc * 1000 + frac_millis(frac.subrange(0, k - dot - 1)),
                millis as int <= acc * 1000 + 999,
                millis as int >= acc * 1000,
                scale as int == (if k - dot - 1 == 0 {
                    100int
                } else if k - dot - 1 == 1 {
                    10int
                } else if k - dot - 1 == 2 {
                    1int
                } else {
                    0int
                }),
            decreases n - k,
        {
            let c = s.get_char(k);
            let code: u32 = c as u32;
            if code < 48 || code > 57 {
                proof {
                    if clock_text_valid(s@) {
                        assert(is_digit(frac[k - dot - 1]));
                        assert(frac[k - dot - 1] == s@[k as int]);
                    }
                }
                return Option::None;
            }
            let d: u64 = (code - 48) as u64;
            millis = millis + d * scale;
            proof {
                let pre = frac.subrange(0, k - dot - 1);
                let post = frac.subrange(0, k - dot);
                assert(post.drop_last() =~= pre);
                assert(post.last() == s@[k as int]);
                assert(digit_val(s@[k as int]) == d as int);
                assert(all_digits(post));
                assert(frac_millis(post) == frac_millis(pre) + (if post.len() <= 3 {
                    digit_val(s@[k as int]) * (scale as int)
                } else {
                    0int
                }));
            }
            if scale == 100 {
                scale = 10;
            } else if scale == 10 {
                scale = 1;
            } else {
                scale = 0;
            }
            k += 1;
        }
        proof {
            assert(frac.subrange(0, k - dot - 1) =~= frac);
        }
    }
    if neg {
        return Option::Some(0);
    }
    Option::Some(millis)
}

} // verus!
