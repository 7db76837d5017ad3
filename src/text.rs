//! Character-level building blocks of the wire format: splitting on a
//! separator, decimal numerals, and whitespace trimming.
use vstd::prelude::*;

verus! {

/// The pieces of `s` between occurrences of `sep`, in order, as `str::split`
/// yields them: there is always at least one piece, and `k` separators give
/// `k + 1` pieces.
pub open spec fn split_seq(s: Seq<char>, sep: char) -> Seq<Seq<char>>
    decreases s.len(),
{
    if s.len() == 0 {
        seq![Seq::<char>::empty()]
    } else {
        let init = split_seq(s.drop_last(), sep);
        if s.last() == sep {
            init.push(Seq::<char>::empty())
        } else {
            init.update(init.len() - 1, init.last().push(s.last()))
        }
    }
}

/// The views of a sequence of strings.
pub open spec fn views(v: Seq<String>) -> Seq<Seq<char>> {
    v.map_values(|p: String| p@)
}

/// How many times `c` occurs in `s`.
pub open spec fn count_char(s: Seq<char>, c: char) -> nat
    decreases s.len(),
{
    if s.len() == 0 {
        0
    } else {
        count_char(s.drop_last(), c) + if s.last() == c {
            1nat
        } else {
            0nat
        }
    }
}

pub proof fn lemma_split_len(s: Seq<char>, sep: char)
    ensures
        split_seq(s, sep).len() == count_char(s, sep) + 1,
    decreases s.len(),
{
    if s.len() > 0 {
        lemma_split_len(s.drop_last(), sep);
    }
}

/// Splitting a concatenation at a separator: the pieces of `a + [sep] + b`
/// are those of `a` followed by those of `b`.
pub proof fn lemma_split_concat(a: Seq<char>, b: Seq<char>, sep: char)
    ensures
        split_seq(a.push(sep) + b, sep) == split_seq(a, sep) + split_seq(b, sep),
    decreases b.len(),
{
    if b.len() == 0 {
        assert(a.push(sep) + b =~= a.push(sep));
        assert(a.push(sep).drop_last() =~= a);
        assert(split_seq(a, sep) + split_seq(b, sep) =~= split_seq(a, sep).push(Seq::<char>::empty()));
    } else {
        lemma_split_concat(a, b.drop_last(), sep);
        lemma_split_nonempty(b.drop_last(), sep);
        assert((a.push(sep) + b).drop_last() =~= a.push(sep) + b.drop_last());
        assert(split_seq(a.push(sep) + b, sep) =~= split_seq(a, sep) + split_seq(b, sep));
    }
}

pub proof fn lemma_split_nonempty(s: Seq<char>, sep: char)
    ensures
        split_seq(s, sep).len() >= 1,
{
    lemma_split_len(s, sep);
}

pub proof fn lemma_count_concat(a: Seq<char>, b: Seq<char>, c: char)
    ensures
        count_char(a + b, c) == count_char(a, c) + count_char(b, c),
    decreases b.len(),
{
    if b.len() == 0 {
        assert(a + b =~= a);
    } else {
        lemma_count_concat(a, b.drop_last(), c);
        assert((a + b).drop_last() =~= a + b.drop_last());
    }
}

/// Text without any `sep` is a single piece.
pub proof fn lemma_split_single(s: Seq<char>, sep: char)
    requires
        count_char(s, sep) == 0,
    ensures
        split_seq(s, sep) == seq![s],
    decreases s.len(),
{
    if s.len() > 0 {
        lemma_split_single(s.drop_last(), sep);
        assert(s.drop_last().push(s.last()) =~= s);
        assert(split_seq(s, sep) =~= seq![s]);
    } else {
        assert(s =~= Seq::<char>::empty());
    }
}

pub proof fn lemma_count_trim_start(s: Seq<char>, c: char)
    requires
        !is_white_space(c),
    ensures
        count_char(trim_start(s), c) == count_char(s, c),
    decreases s.len(),
{
    if s.len() > 0 && is_white_space(s[0]) {
        lemma_count_trim_start(s.drop_first(), c);
        lemma_count_concat(seq![s[0]], s.drop_first(), c);
        assert(seq![s[0]] + s.drop_first() =~= s);
        assert(seq![s[0]].drop_last() =~= Seq::<char>::empty());
        assert(s[0] != c);
        assert(count_char(Seq::<char>::empty(), c) == 0);
        assert(count_char(seq![s[0]], c) == 0);
    }
}

proof fn lemma_count_trim_end(s: Seq<char>, c: char)
    requires
        !is_white_space(c),
    ensures
        count_char(trim_end(s), c) == count_char(s, c),
    decreases s.len(),
{
    if s.len() > 0 && is_white_space(s.last()) {
        lemma_count_trim_end(s.drop_last(), c);
    }
}

/// Trimming keeps every character that is not whitespace, so it keeps the
/// count of any such character.
pub proof fn lemma_count_trimmed(s: Seq<char>, c: char)
    requires
        !is_white_space(c),
    ensures
        count_char(trimmed(s), c) == count_char(s, c),
        count_char(trim_end(s), c) == count_char(s, c),
{
    lemma_count_trim_start(s, c);
    lemma_count_trim_end(trim_start(s), c);
    lemma_count_trim_end(s, c);
}

/// Leading whitespace stops at the first character that is not whitespace.
pub proof fn lemma_trim_start_concat(a: Seq<char>, b: Seq<char>)
    requires
        b.len() > 0,
        !is_white_space(b[0]),
    ensures
        trim_start(a + b) == trim_start(a) + b,
    decreases a.len(),
{
    if a.len() == 0 {
        assert(a + b =~= b);
        assert(trim_start(a) + b =~= b);
    } else {
        assert((a + b)[0] == a[0]);
        if is_white_space(a[0]) {
            assert((a + b).drop_first() =~= a.drop_first() + b);
            lemma_trim_start_concat(a.drop_first(), b);
        }
    }
}

/// Trailing whitespace stops at the last character that is not whitespace.
pub proof fn lemma_trim_end_concat(a: Seq<char>, b: Seq<char>)
    requires
        a.len() > 0,
        !is_white_space(a.last()),
    ensures
        trim_end(a + b) == a + trim_end(b),
    decreases b.len(),
{
    if b.len() == 0 {
        assert(a + b =~= a);
        assert(a + trim_end(b) =~= a);
    } else {
        assert((a + b).last() == b.last());
        if is_white_space(b.last()) {
            assert((a + b).drop_last() =~= a + b.drop_last());
            lemma_trim_end_concat(a, b.drop_last());
        }
    }
}

/// A character that occurs nowhere in `s` is counted zero times.
pub proof fn lemma_count_absent(s: Seq<char>, c: char)
    requires
        forall|i: int| 0 <= i < s.len() ==> s[i] != c,
    ensures
        count_char(s, c) == 0,
    decreases s.len(),
{
    if s.len() > 0 {
        assert(s[s.len() - 1] != c);
        lemma_count_absent(s.drop_last(), c);
    }
}

/// Digits hold no colon.
pub proof fn lemma_digits_no_colon(s: Seq<char>)
    requires
        all_digits(s),
    ensures
        count_char(s, ':') == 0,
    decreases s.len(),
{
    if s.len() > 0 {
        assert(is_digit(s[s.len() - 1]));
        assert(all_digits(s.drop_last())) by {
            assert forall|i: int| 0 <= i < s.drop_last().len() implies is_digit(#[trigger] s.drop_last()[i]) by {
                assert(s.drop_last()[i] == s[i]);
            }
        }
        lemma_digits_no_colon(s.drop_last());
    }
}

/// Splits `s` on every occurrence of `sep`.
pub fn split_on(s: &str, sep: char) -> (r: Vec<String>)
    ensures
        views(r@) == split_seq(s@, sep),
{
    let mut parts: Vec<String> = Vec::new();
    let mut cur = String::new();
    let ghost mut seen: Seq<char> = Seq::empty();
    for c in it: s.chars()
        invariant
            it.seq() == s@,
            seen == it.seq().subrange(0, it.index() as int),
            views(parts@).push(cur@) == split_seq(it.seq().subrange(0, it.index() as int), sep),
    {
        let ghost pre = it.seq().subrange(0, it.index() as int);
        let ghost next = it.seq().subrange(0, it.index() + 1);
        proof {
            assert(next.drop_last() =~= pre);
            lemma_split_nonempty(pre, sep);
        }
        if c == sep {
            let done = cur;
            parts.push(done);
            cur = String::new();
            assert(views(parts@).push(cur@) =~= split_seq(next, sep));
        } else {
            push_char(&mut cur, c);
            assert(views(parts@).push(cur@) =~= split_seq(next, sep));
        }
        proof {
            seen = seen.push(c);
        }
    }
    assert(seen =~= s@);
    parts.push(cur);
    assert(views(parts@) =~= split_seq(s@, sep));
    parts
}

/// The ASCII decimal digit of value `d` (below ten).
pub open spec fn digit_char(d: nat) -> char {
    (d + 48) as char
}

/// Whether `c` is one of `0` to `9`.
pub open spec fn is_digit(c: char) -> bool {
    48 <= c as u32 <= 57
}

/// The value of the decimal digit `c`.
pub open spec fn digit_value(c: char) -> nat {
    (c as u32 - 48) as nat
}

/// The value of a string of decimal digits, most significant first.
pub open spec fn digits_value(s: Seq<char>) -> nat
    decreases s.len(),
{
    if s.len() == 0 {
        0
    } else {
        digits_value(s.drop_last()) * 10 + digit_value(s.last())
    }
}

pub open spec fn all_digits(s: Seq<char>) -> bool {
    forall|i: int| 0 <= i < s.len() ==> is_digit(#[trigger] s[i])
}

/// The decimal numeral of `n`, without leading zeros.
pub open spec fn decimal(n: nat) -> Seq<char>
    decreases n,
{
    if n < 10 {
        seq![digit_char(n)]
    } else {
        decimal(n / 10).push(digit_char(n % 10))
    }
}

/// What `u32::from_str` accepts: an optional `+`, then one or more decimal
/// digits whose value fits in 32 bits.
pub open spec fn parse_u32_spec(s: Seq<char>) -> Option<u32> {
    let d = if s.len() > 0 && s[0] == '+' {
        s.drop_first()
    } else {
        s
    };
    if d.len() > 0 && all_digits(d) && digits_value(d) <= u32::MAX {
        Some(digits_value(d) as u32)
    } else {
        None
    }
}

/// A field that should hold a number, read as zero where it does not.
pub open spec fn parse_u32_or_zero(s: Seq<char>) -> u32 {
    match parse_u32_spec(s) {
        Some(n) => n,
        None => 0,
    }
}

proof fn lemma_digit_char(d: nat)
    requires
        d < 10,
    ensures
        digit_char(d) as u32 == d + 48,
        is_digit(digit_char(d)),
        digit_value(digit_char(d)) == d,
{
}

pub proof fn lemma_decimal_digits(n: nat)
    ensures
        all_digits(decimal(n)),
        digits_value(decimal(n)) == n,
        decimal(n).len() > 0,
    decreases n,
{
    lemma_digit_char(n % 10);
    if n >= 10 {
        lemma_decimal_digits(n / 10);
        assert(decimal(n).drop_last() =~= decimal(n / 10));
        assert(decimal(n).last() == digit_char(n % 10));
        assert(digits_value(decimal(n)) == digits_value(decimal(n / 10)) * 10 + digit_value(digit_char(n % 10)));
        assert((n / 10) * 10 + n % 10 == n);
        assert(digits_value(decimal(n)) == n);
        assert(all_digits(decimal(n))) by {
            assert forall|i: int| 0 <= i < decimal(n).len() implies is_digit(#[trigger] decimal(n)[i]) by {
                if i < decimal(n).len() - 1 {
                    assert(decimal(n)[i] == decimal(n / 10)[i]);
                }
            }
        }
    } else {
        assert(n % 10 == n);
        assert(decimal(n).drop_last() =~= Seq::<char>::empty());
        assert(digits_value(Seq::<char>::empty()) == 0);
        assert(digits_value(decimal(n)) == n);
    }
}

/// A decimal numeral reads back as the number it was written from.
pub proof fn lemma_parse_decimal(n: u32)
    ensures
        parse_u32_spec(decimal(n as nat)) == Some(n),
{
    lemma_decimal_digits(n as nat);
}

proof fn lemma_digits_value_prefix(s: Seq<char>, k: int)
    requires
        0 <= k <= s.len(),
    ensures
        digits_value(s.subrange(0, k)) <= digits_value(s),
    decreases s.len() - k,
{
    if k < s.len() {
        lemma_digits_value_prefix(s, k + 1);
        assert(s.subrange(0, k + 1).drop_last() =~= s.subrange(0, k));
    } else {
        assert(s.subrange(0, k) =~= s);
    }
}

fn digit_to_char(d: u32) -> (c: char)
    requires
        d < 10,
    ensures
        c == digit_char(d as nat),
{
    let b: u8 = (d + 48) as u8;
    b as char
}

/// Appends the decimal numeral of `n` to `s`.
pub fn push_decimal(s: &mut String, n: u32)
    ensures
        final(s)@ == old(s)@ + decimal(n as nat),
    decreases n,
{
    if n >= 10 {
        push_decimal(s, n / 10);
    }
    push_char(s, digit_to_char(n % 10));
    assert(final(s)@ =~= old(s)@ + decimal(n as nat));
}

/// Reads a decimal number as `u32::from_str` does.
pub fn parse_u32(s: &str) -> (r: Option<u32>)
    ensures
        r == parse_u32_spec(s@),
{
    let mut acc: u64 = 0;
    let mut first = true;
    let mut plus = false;
    let mut any = false;
    let ghost mut seen: Seq<char> = Seq::empty();
    for c in it: s.chars()
        invariant
            it.seq() == s@,
            seen == it.seq().subrange(0, it.index() as int),
            first <==> seen.len() == 0,
            plus <==> (seen.len() > 0 && s@[0] == '+'),
            any <==> seen.len() > (if plus { 1int } else { 0int }),
            all_digits(seen.subrange(if plus { 1int } else { 0int }, seen.len() as int)),
            acc == digits_value(seen.subrange(if plus { 1int } else { 0int }, seen.len() as int)),
            acc <= u32::MAX,
    {
        let ghost ds: int = if plus { 1int } else { 0int };
        let ghost next = seen.push(c);
        proof {
            assert(next =~= it.seq().subrange(0, it.index() + 1));
        }
        if first && c == '+' {
            plus = true;
            assert(next.subrange(1, next.len() as int) =~= Seq::<char>::empty());
        } else {
            let code = c as u32;
            if code < 48 || code > 57 {
                proof {
                    let d = if s@.len() > 0 && s@[0] == '+' { s@.drop_first() } else { s@ };
                    assert(d[seen.len() - ds] == c);
                }
                return None;
            }
            proof {
                let pd = seen.subrange(ds, seen.len() as int);
                let nd = next.subrange(ds, next.len() as int);
                assert(nd.drop_last() =~= pd);
                assert(nd.last() == c);
                assert forall|i: int| 0 <= i < nd.len() implies is_digit(#[trigger] nd[i]) by {
                    if i < nd.len() - 1 {
                        assert(nd[i] == pd[i]);
                    }
                }
            }
            acc = acc * 10 + (code - 48) as u64;
            if acc > 0xffff_ffff {
                proof {
                    let d = if s@.len() > 0 && s@[0] == '+' { s@.drop_first() } else { s@ };
                    assert(d.subrange(0, next.len() - ds) =~= next.subrange(ds, next.len() as int));
                    lemma_digits_value_prefix(d, next.len() - ds);
                }
                return None;
            }
            any = true;
        }
        first = false;
        proof {
            seen = next;
        }
    }
    proof {
        assert(seen =~= s@);
        let ds: int = if plus { 1int } else { 0int };
        if plus {
            assert(s@.drop_first() =~= s@.subrange(ds, s@.len() as int));
        } else {
            assert(s@ =~= s@.subrange(0, s@.len() as int));
        }
    }
    if any {
        Some(acc as u32)
    } else {
        None
    }
}

/// Whether `c` has the Unicode `White_Space` property, as `char::is_whitespace`
/// tests it.
pub open spec fn is_white_space(c: char) -> bool {
    let u = c as u32;
    (0x09 <= u <= 0x0d) || u == 0x20 || u == 0x85 || u == 0xa0 || u == 0x1680 || (0x2000 <= u
        <= 0x200a) || u == 0x2028 || u == 0x2029 || u == 0x202f || u == 0x205f || u == 0x3000
}

/// `s` without its leading whitespace.
pub open spec fn trim_start(s: Seq<char>) -> Seq<char>
    decreases s.len(),
{
    if s.len() > 0 && is_white_space(s[0]) {
        trim_start(s.drop_first())
    } else {
        s
    }
}

/// `s` without its trailing whitespace.
pub open spec fn trim_end(s: Seq<char>) -> Seq<char>
    decreases s.len(),
{
    if s.len() > 0 && is_white_space(s.last()) {
        trim_end(s.drop_last())
    } else {
        s
    }
}

/// `s` without leading and trailing whitespace.
pub open spec fn trimmed(s: Seq<char>) -> Seq<char> {
    trim_end(trim_start(s))
}

/// Relies on `str::trim`: leading and trailing characters with the Unicode
/// `White_Space` property are removed, and nothing else.
#[verifier::external_body]
pub(crate) fn trim_text<'a>(s: &'a str) -> (r: &'a str)
    ensures
        r@ == trimmed(s@),
{
    s.trim()
}

/// Relies on `String::push`: the character is appended at the end.
#[verifier::external_body]
pub(crate) fn push_char(s: &mut String, c: char)
    ensures
        final(s)@ == old(s)@.push(c),
{
    s.push(c);
}

} // verus!
