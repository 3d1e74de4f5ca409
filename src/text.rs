use vstd::prelude::*;
use vstd::string::StringExecFns;

verus! {

/// Character-wise equality of two string slices.
pub fn str_eq(s: &str, t: &str) -> (r: bool)
    ensures
        r == (s@ == t@),
{
    let n = s.unicode_len();
    let m = t.unicode_len();
    if n != m {
        return false;
    }
    let mut i: usize = 0;
    while i < n
        invariant
            n == s@.len(),
            m == t@.len(),
            n == m,
            i <= n,
            forall|j: int| 0 <= j < i ==> s@[j] == t@[j],
        decreases n - i,
    {
        if s.get_char(i) != t.get_char(i) {
            return false;
        }
        i += 1;
    }
    proof {
        assert(s@ =~= t@);
    }
    true
}


pub open spec fn is_digit(c: char) -> bool {
    '0' <= c && c <= '9'
}

pub open spec fn all_digits(s: Seq<char>) -> bool {
    forall|i: int| 0 <= i < s.len() ==> is_digit(#[trigger] s[i])
}

/// The value of a run of decimal digits, most significant first.
pub open spec fn digits_value(s: Seq<char>) -> int
    decreases s.len(),
{
    if s.len() == 0 {
        0
    } else {
        10 * digits_value(s.drop_last()) + (s.last() as u32 - '0' as u32)
    }
}

/// A non-empty run of decimal digits and its value.
pub open spec fn unsigned_literal(s: Seq<char>) -> Option<int> {
    if s.len() > 0 && all_digits(s) {
        Some(digits_value(s))
    } else {
        None
    }
}

/// What `str::parse::<u16>` accepts: an optional `+`, then decimal digits, in range.
pub open spec fn u16_literal(s: Seq<char>) -> Option<u16> {
    let body = if s.len() > 0 && s[0] == '+' { s.skip(1) } else { s };
    match unsigned_literal(body) {
        Some(v) => if v <= u16::MAX { Some(v as u16) } else { None },
        None => None,
    }
}

/// What `str::parse::<i16>` accepts: an optional sign, then decimal digits, in range.
pub open spec fn i16_literal(s: Seq<char>) -> Option<i16> {
    if s.len() > 0 && s[0] == '-' {
        match unsigned_literal(s.skip(1)) {
            Some(v) => if v <= 32768 { Some((-v) as i16) } else { None },
            None => None,
        }
    } else {
        let body = if s.len() > 0 && s[0] == '+' { s.skip(1) } else { s };
        match unsigned_literal(body) {
            Some(v) => if v <= i16::MAX { Some(v as i16) } else { None },
            None => None,
        }
    }
}

proof fn lemma_digits_value_grows(s: Seq<char>, k: int)
    requires
        all_digits(s),
        0 <= k <= s.len(),
    ensures
        0 <= digits_value(s.take(k)) <= digits_value(s),
    decreases s.len(),
{
    if s.len() > 0 {
        assert(all_digits(s.drop_last()));
        assert(is_digit(s[s.len() - 1]));
        if k == s.len() {
            assert(s.take(k) =~= s);
            lemma_digits_value_grows(s.drop_last(), k - 1);
        } else {
            assert(s.drop_last().take(k) =~= s.take(k));
            lemma_digits_value_grows(s.drop_last(), k);
        }
    } else {
        assert(s.take(k) =~= s);
    }
}

/// Reads the digits of `s` from position `from` to its end, giving up above `limit`.
fn digits_from(s: &str, from: usize, limit: u32) -> (r: Option<u32>)
    requires
        from <= s@.len(),
        limit <= 100000,
    ensures
        r == match unsigned_literal(s@.skip(from as int)) {
            Some(v) => if v <= limit { Some(v as u32) } else { None },
            None => None,
        },
        r matches Some(v) ==> v <= limit,
        unsigned_literal(s@.skip(from as int)) matches Some(v) ==> v >= 0,
{
    let n = s.unicode_len();
    let ghost body = s@.skip(from as int);
    proof {
        if all_digits(body) {
            lemma_digits_value_grows(body, 0);
        }
    }
    if from == n {
        return None;
    }
    let mut acc: u32 = 0;
    let mut i: usize = from;
    while i < n
        invariant
            n == s@.len(),
            body == s@.skip(from as int),
            from < n,
            from <= i <= n,
            limit <= 100000,
            acc <= limit,
            all_digits(body.take(i - from)),
            acc as int == digits_value(body.take(i - from)),
        decreases n - i,
    {
        let c = s.get_char(i);
        if !('0' <= c && c <= '9') {
            assert(body[i - from] == c);
            return None;
        }
        let ghost pre = body.take(i - from);
        let ghost next = body.take(i - from + 1);
        assert(next.drop_last() =~= pre);
        assert(next.last() == c);
        assert(all_digits(next)) by {
            assert forall|j: int| 0 <= j < next.len() implies is_digit(#[trigger] next[j]) by {
                if j < next.len() - 1 {
                    assert(next[j] == pre[j]);
                }
            }
        }
        acc = acc * 10 + (c as u32 - '0' as u32);
        i += 1;
        if acc > limit {
            proof {
                let rest = s@.skip(from as int);
                if all_digits(rest) {
                    lemma_digits_value_grows(rest, i - from);
                }
            }
            return None;
        }
    }
    assert(body.take(n - from) =~= body);
    Some(acc)
}

/// Parses a `u16` as `str::parse::<u16>` does.
pub fn parse_u16(s: &str) -> (r: Option<u16>)
    ensures
        r == u16_literal(s@),
{
    let n = s.unicode_len();
    let from: usize = if n > 0 && s.get_char(0) == '+' { 1 } else { 0 };
    assert(s@.skip(0) =~= s@);
    match digits_from(s, from, 65535) {
        Some(v) => Some(v as u16),
        None => None,
    }
}

/// Parses an `i16` as `str::parse::<i16>` does.
pub fn parse_i16(s: &str) -> (r: Option<i16>)
    ensures
        r == i16_literal(s@),
{
    let n = s.unicode_len();
    assert(s@.skip(0) =~= s@);
    if n > 0 && s.get_char(0) == '-' {
        match digits_from(s, 1, 32768) {
            Some(v) => Some((0 - (v as i32)) as i16),
            None => None,
        }
    } else {
        let from: usize = if n > 0 && s.get_char(0) == '+' { 1 } else { 0 };
        match digits_from(s, from, 32767) {
            Some(v) => Some(v as i16),
            None => None,
        }
    }
}

/// The characters that `char::is_whitespace` accepts: those with the Unicode property
/// White_Space.
pub open spec fn is_white(c: char) -> bool {
    let u = c as u32;
    (0x9 <= u <= 0xd) || u == 0x20 || u == 0x85 || u == 0xa0 || u == 0x1680 || (0x2000 <= u
        <= 0x200a) || u == 0x2028 || u == 0x2029 || u == 0x202f || u == 0x205f || u == 0x3000
}

/// Whether a character is white space, as [is_white] states it.
pub fn is_whitespace(c: char) -> (r: bool)
    ensures
        r == is_white(c),
{
    let u = c as u32;
    (0x9 <= u && u <= 0xd) || u == 0x20 || u == 0x85 || u == 0xa0 || u == 0x1680 || (0x2000 <= u
        && u <= 0x200a) || u == 0x2028 || u == 0x2029 || u == 0x202f || u == 0x205f || u == 0x3000
}

/// `s` without its leading white space.
pub open spec fn trim_start(s: Seq<char>) -> Seq<char>
    decreases s.len(),
{
    if s.len() > 0 && is_white(s[0]) {
        trim_start(s.drop_first())
    } else {
        s
    }
}

/// `s` without its trailing white space.
pub open spec fn trim_end(s: Seq<char>) -> Seq<char>
    decreases s.len(),
{
    if s.len() > 0 && is_white(s.last()) {
        trim_end(s.drop_last())
    } else {
        s
    }
}

/// `s` without leading and trailing white space, as `str::trim` gives it.
pub open spec fn trim(s: Seq<char>) -> Seq<char> {
    trim_end(trim_start(s))
}

/// `s` without leading and trailing white space.
pub fn trim_str(s: &str) -> (r: &str)
    ensures
        r@ == trim(s@),
{
    let n = s.unicode_len();
    let mut lo: usize = 0;
    assert(s@.subrange(0, n as int) =~= s@);
    while lo < n && is_whitespace(s.get_char(lo))
        invariant
            n == s@.len(),
            lo <= n,
            trim_start(s@) == trim_start(s@.subrange(lo as int, n as int)),
        decreases n - lo,
    {
        proof {
            let u = s@.subrange(lo as int, n as int);
            assert(u.drop_first() =~= s@.subrange(lo + 1, n as int));
        }
        lo += 1;
    }
    let ghost u = s@.subrange(lo as int, n as int);
    assert(trim_start(s@) == u);
    let mut hi: usize = n;
    while hi > lo && is_whitespace(s.get_char(hi - 1))
        invariant
            n == s@.len(),
            lo <= hi <= n,
            u == s@.subrange(lo as int, n as int),
            trim_end(u) == trim_end(s@.subrange(lo as int, hi as int)),
        decreases hi,
    {
        proof {
            let w = s@.subrange(lo as int, hi as int);
            assert(w.drop_last() =~= s@.subrange(lo as int, hi - 1));
        }
        hi -= 1;
    }
    s.substring_char(lo, hi)
}

/// Whether a character is something other than a space.
pub open spec fn not_space() -> spec_fn(char) -> bool {
    |c: char| c != ' '
}

/// `s` with every space removed.
pub fn strip_spaces(s: &str) -> (r: String)
    ensures
        r@ == s@.filter(not_space()),
{
    let n = s.unicode_len();
    let mut r = String::new();
    let mut i: usize = 0;
    while i < n
        invariant
            n == s@.len(),
            i <= n,
            r@ == s@.take(i as int).filter(not_space()),
        decreases n - i,
    {
        let c = s.get_char(i);
        proof {
            let t = s@.take(i + 1);
            assert(t.drop_last() =~= s@.take(i as int));
            assert(t.last() == c);
            reveal(Seq::filter);
        }
        if c != ' ' {
            let piece = s.substring_char(i, i + 1);
            r.append(piece);
            proof {
                assert(piece@ =~= seq![c]);
            }
        }
        i += 1;
    }
    proof {
        assert(s@.take(n as int) =~= s@);
    }
    r
}

/// Whether `s` holds the character `c`.
pub fn has_char(s: &str, c: char) -> (r: bool)
    ensures
        r == s@.contains(c),
{
    let n = s.unicode_len();
    let mut i: usize = 0;
    while i < n
        invariant
            n == s@.len(),
            i <= n,
            forall|j: int| 0 <= j < i ==> s@[j] != c,
        decreases n - i,
    {
        if s.get_char(i) == c {
            return true;
        }
        i += 1;
    }
    false
}

/// The decimal digit of a value below ten.
pub open spec fn digit_char(d: nat) -> char {
    if d == 0 {
        '0'
    } else if d == 1 {
        '1'
    } else if d == 2 {
        '2'
    } else if d == 3 {
        '3'
    } else if d == 4 {
        '4'
    } else if d == 5 {
        '5'
    } else if d == 6 {
        '6'
    } else if d == 7 {
        '7'
    } else if d == 8 {
        '8'
    } else if d == 9 {
        '9'
    } else {
        '?'
    }
}

/// The decimal digits of a natural number, without leading zeros.
pub open spec fn decimal(n: nat) -> Seq<char>
    decreases n,
{
    if n < 10 {
        seq![digit_char(n)]
    } else {
        decimal(n / 10).push(digit_char(n % 10))
    }
}

/// The decimal text of an integer, with a `-` in front of a negative one.
pub open spec fn signed_decimal(v: int) -> Seq<char> {
    if v < 0 {
        seq!['-'] + decimal((-v) as nat)
    } else {
        decimal(v as nat)
    }
}

fn digit_str(d: u32) -> (r: &'static str)
    requires
        d < 10,
    ensures
        r@ == seq![digit_char(d as nat)],
{
    if d == 0 {
        proof {
            reveal_strlit("0");
        }
        "0"
    } else if d == 1 {
        proof {
            reveal_strlit("1");
        }
        "1"
    } else if d == 2 {
        proof {
            reveal_strlit("2");
        }
        "2"
    } else if d == 3 {
        proof {
            reveal_strlit("3");
        }
        "3"
    } else if d == 4 {
        proof {
            reveal_strlit("4");
        }
        "4"
    } else if d == 5 {
        proof {
            reveal_strlit("5");
        }
        "5"
    } else if d == 6 {
        proof {
            reveal_strlit("6");
        }
        "6"
    } else if d == 7 {
        proof {
            reveal_strlit("7");
        }
        "7"
    } else if d == 8 {
        proof {
            reveal_strlit("8");
        }
        "8"
    } else {
        proof {
            reveal_strlit("9");
        }
        "9"
    }
}

fn append_decimal(r: &mut String, n: u32)
    ensures
        final(r)@ == old(r)@ + decimal(n as nat),
    decreases n,
{
    if n >= 10 {
        append_decimal(r, n / 10);
    }
    let d = digit_str(n % 10);
    r.append(d);
    proof {
        if n >= 10 {
            assert(decimal(n as nat) == decimal((n / 10) as nat).push(digit_char((n % 10) as nat)));
        }
    }
    assert(r@ =~= old(r)@ + decimal(n as nat));
}

/// The decimal text of a 16-bit signed integer.
pub fn decimal_text(v: i16) -> (r: String)
    ensures
        r@ == signed_decimal(v as int),
{
    let mut r = String::new();
    if v < 0 {
        r.append("-");
        proof {
            reveal_strlit("-");
        }
        append_decimal(&mut r, (0 - (v as i32)) as u32);
    } else {
        append_decimal(&mut r, v as u32);
    }
    assert(r@ =~= signed_decimal(v as int));
    r
}

} // verus!
