use vstd::prelude::*;

verus! {

/// The decimal digit character of `d`.
pub open spec fn digit_char(d: nat) -> char {
    if d == 0 {
        '0'
    } else if d == 1 {
        '1'
    } else if d == 2 {
        '2'
    } else if d == 3 {
        '3'
    } else if d == 4 {
        '4'
    } else if d == 5 {
        '5'
    } else if d == 6 {
        '6'
    } else if d == 7 {
        '7'
    } else if d == 8 {
        '8'
    } else {
        '9'
    }
}

/// The decimal representation of `n`, without leading zeros.
pub open spec fn decimal(n: nat) -> Seq<char>
    decreases n,
{
    if n < 10 {
        seq![digit_char(n)]
    } else {
        decimal(n / 10).push(digit_char(n % 10))
    }
}

/// Appends the digit `d` to `s`.
fn push_digit(s: &mut String, d: u64)
    requires
        d < 10,
    ensures
        final(s)@ == old(s)@.push(digit_char(d as nat)),
{
    proof {
        reveal_strlit("0");
        reveal_strlit("1");
        reveal_strlit("2");
        reveal_strlit("3");
        reveal_strlit("4");
        reveal_strlit("5");
        reveal_strlit("6");
        reveal_strlit("7");
        reveal_strlit("8");
        reveal_strlit("9");
    }
    if d == 0 {
        s.append("0");
    } else if d == 1 {
        s.append("1");
    } else if d == 2 {
        s.append("2");
    } else if d == 3 {
        s.append("3");
    } else if d == 4 {
        s.append("4");
    } else if d == 5 {
        s.append("5");
    } else if d == 6 {
        s.append("6");
    } else if d == 7 {
        s.append("7");
    } else if d == 8 {
        s.append("8");
    } else {
        s.append("9");
    }
}

/// Appends the decimal representation of `n` to `s`.
pub fn push_decimal(s: &mut String, n: u64)
    ensures
        final(s)@ == old(s)@ + decimal(n as nat),
    decreases n,
{
    if n < 10 {
        push_digit(s, n);
        assert(decimal(n as nat) =~= seq![digit_char(n as nat)]);
    } else {
        push_decimal(s, n / 10);
        push_digit(s, n % 10);
        assert(decimal(n as nat) == decimal((n / 10) as nat).push(digit_char((n % 10) as nat)));
    }
}

/// The characters of `s`, in order.
pub fn chars_of(s: &str) -> (out: Vec<char>)
    ensures
        out@ == s@,
{
    let mut out: Vec<char> = Vec::new();
    for c in it: s.chars()
        invariant
            out@ == it.seq().take(it.index() as int),
            it.seq() == s@,
    {
        out.push(c);
    }
    out
}


/// `char::is_whitespace`: the characters with the Unicode `White_Space` property.
pub open spec fn is_space(c: char) -> bool {
    let u = c as u32;
    (0x9 <= u <= 0xd) || u == 0x20 || u == 0x85 || u == 0xa0 || u == 0x1680 || (0x2000 <= u
        <= 0x200a) || u == 0x2028 || u == 0x2029 || u == 0x202f || u == 0x205f || u == 0x3000
}

/// Whether `c` is white space.
pub fn is_space_char(c: char) -> (b: bool)
    ensures
        b == is_space(c),
{
    let u = c as u32;
    (0x9 <= u && u <= 0xd) || u == 0x20 || u == 0x85 || u == 0xa0 || u == 0x1680 || (0x2000 <= u
        && u <= 0x200a) || u == 0x2028 || u == 0x2029 || u == 0x202f || u == 0x205f || u == 0x3000
}

/// How many white-space characters `s` starts with.
pub open spec fn leading_spaces(s: Seq<char>) -> nat
    decreases s.len(),
{
    if s.len() > 0 && is_space(s[0]) {
        1 + leading_spaces(s.drop_first())
    } else {
        0
    }
}

/// How many white-space characters `s` ends with.
pub open spec fn trailing_spaces(s: Seq<char>) -> nat
    decreases s.len(),
{
    if s.len() > 0 && is_space(s.last()) {
        1 + trailing_spaces(s.drop_last())
    } else {
        0
    }
}

/// `str::trim`: `s` without its leading and trailing white space.
pub open spec fn trim(s: Seq<char>) -> Seq<char> {
    let t = s.skip(leading_spaces(s) as int);
    t.take(t.len() - trailing_spaces(t))
}

pub proof fn lemma_leading_spaces(s: Seq<char>, a: int)
    requires
        0 <= a <= s.len(),
        forall|j: int| 0 <= j < a ==> is_space(#[trigger] s[j]),
        a == s.len() || !is_space(s[a]),
    ensures
        leading_spaces(s) == a,
    decreases a,
{
    if a > 0 {
        lemma_leading_spaces(s.drop_first(), a - 1);
    }
}

pub proof fn lemma_trailing_spaces(s: Seq<char>, b: int)
    requires
        0 <= b <= s.len(),
        forall|j: int| b <= j < s.len() ==> is_space(#[trigger] s[j]),
        b == 0 || !is_space(s[b - 1]),
    ensures
        trailing_spaces(s) == s.len() - b,
    decreases s.len() - b,
{
    if b < s.len() {
        lemma_trailing_spaces(s.drop_last(), b);
    }
}

/// The bounds of `s` trimmed of white space at both ends.
pub fn trim_bounds(s: &Vec<char>) -> (r: (usize, usize))
    ensures
        r.0 <= r.1 <= s@.len(),
        s@.subrange(r.0 as int, r.1 as int) == trim(s@),
{
    let n = s.len();
    let mut a: usize = 0;
    while a < n && is_space_char(s[a])
        invariant
            a <= n == s@.len(),
            forall|j: int| 0 <= j < a ==> is_space(#[trigger] s@[j]),
        decreases n - a,
    {
        a = a + 1;
    }
    let mut b: usize = n;
    while b > a && is_space_char(s[b - 1])
        invariant
            a <= b <= n == s@.len(),
            forall|j: int| b <= j < n ==> is_space(#[trigger] s@[j]),
        decreases b,
    {
        b = b - 1;
    }
    proof {
        lemma_leading_spaces(s@, a as int);
        let t = s@.skip(a as int);
        assert forall|j: int| b - a <= j < t.len() implies is_space(#[trigger] t[j]) by {
            assert(t[j] == s@[a + j]);
        }
        if b > a {
            assert(t[b - a - 1] == s@[b - 1]);
        }
        lemma_trailing_spaces(t, b - a);
        assert(s@.subrange(a as int, b as int) =~= t.take(t.len() - trailing_spaces(t)));
    }
    (a, b)
}

/// `n` occurs in `h` at position `i`.
pub open spec fn occurs_at(h: Seq<char>, n: Seq<char>, i: int) -> bool {
    0 <= i && i + n.len() <= h.len() && h.subrange(i, i + n.len()) == n
}

/// The first position at or after `i` where `n` occurs in `h`.
pub open spec fn find_from(h: Seq<char>, n: Seq<char>, i: int) -> Option<int>
    decreases h.len() + 1 - i,
{
    if i < 0 || i + n.len() > h.len() {
        None
    } else if h.subrange(i, i + n.len()) == n {
        Some(i)
    } else {
        find_from(h, n, i + 1)
    }
}

/// `str::find`: the first position where `n` occurs in `h`.
pub open spec fn find(h: Seq<char>, n: Seq<char>) -> Option<int> {
    find_from(h, n, 0)
}

/// `str::contains`.
pub open spec fn contains(h: Seq<char>, n: Seq<char>) -> bool {
    find(h, n) is Some
}

/// What `find` returns is a position where the pattern occurs.
pub proof fn lemma_find_from(h: Seq<char>, n: Seq<char>, i: int)
    requires
        0 <= i,
    ensures
        find_from(h, n, i) matches Some(k) ==> i <= k && occurs_at(h, n, k),
    decreases h.len() + 1 - i,
{
    if !(i + n.len() > h.len()) && h.subrange(i, i + n.len()) != n {
        lemma_find_from(h, n, i + 1);
    }
}

/// Finds the first occurrence of `n` in `h[start..end]`, as a position in `h`.
pub fn find_in(h: &Vec<char>, start: usize, end: usize, n: &Vec<char>) -> (r: Option<usize>)
    requires
        start <= end <= h@.len(),
    ensures
        match find(h@.subrange(start as int, end as int), n@) {
            Some(k) => r == Some((start + k) as usize),
            None => r is None,
        },
{
    let ghost hs = h@.subrange(start as int, end as int);
    let m = n.len();
    if m > end - start {
        return None;
    }
    let mut i: usize = 0;
    while i <= (end - start) - m
        invariant
            start <= end <= h@.len(),
            m == n@.len(),
            m <= end - start,
            i <= end - start - m + 1,
            hs == h@.subrange(start as int, end as int),
            find(hs, n@) == find_from(hs, n@, i as int),
        decreases end - start - i,
    {
        let mut k: usize = 0;
        let mut same = true;
        while k < m
            invariant
                start <= end <= h@.len(),
                m == n@.len(),
                i + m <= end - start,
                k <= m,
                hs == h@.subrange(start as int, end as int),
                same == (forall|j: int| 0 <= j < k ==> hs[i + j] == n@[j]),
            decreases m - k,
        {
            if h[start + i + k] != n[k] {
                same = false;
            }
            k = k + 1;
        }
        if same {
            assert(hs.subrange(i as int, i + m) =~= n@);
            return Some(start + i);
        }
        assert(hs.subrange(i as int, i + m) != n@) by {
            let j = choose|j: int| 0 <= j < m && hs[i + j] != n@[j];
            assert(hs.subrange(i as int, i + m)[j] == hs[i + j]);
        }
        i = i + 1;
    }
    None
}

/// `str::strip_prefix`: `s` without the prefix `p`, when it has it.
pub open spec fn strip_prefix(s: Seq<char>, p: Seq<char>) -> Option<Seq<char>> {
    if p.len() <= s.len() && s.take(p.len() as int) == p {
        Some(s.skip(p.len() as int))
    } else {
        None
    }
}

/// Whether `h[start..end]` starts with `p`.
pub fn has_prefix(h: &Vec<char>, start: usize, end: usize, p: &Vec<char>) -> (b: bool)
    requires
        start <= end <= h@.len(),
    ensures
        b == strip_prefix(h@.subrange(start as int, end as int), p@) is Some,
{
    let ghost hs = h@.subrange(start as int, end as int);
    let m = p.len();
    if m > end - start {
        return false;
    }
    let mut k: usize = 0;
    while k < m
        invariant
            start <= end <= h@.len(),
            m == p@.len(),
            m <= end - start,
            k <= m,
            hs == h@.subrange(start as int, end as int),
            forall|j: int| 0 <= j < k ==> hs[j] == p@[j],
        decreases m - k,
    {
        if h[start + k] != p[k] {
            assert(hs.take(m as int)[k as int] != p@[k as int]);
            return false;
        }
        k = k + 1;
    }
    assert(hs.take(m as int) =~= p@);
    true
}

/// An ASCII decimal digit.
pub open spec fn is_digit(c: char) -> bool {
    '0' as u32 <= c as u32 <= '9' as u32
}

/// Every character of `s` is an ASCII decimal digit.
pub open spec fn all_digits(s: Seq<char>) -> bool {
    forall|i: int| 0 <= i < s.len() ==> is_digit(#[trigger] s[i])
}

/// The number that the decimal digits `s` spell.
pub open spec fn digits_value(s: Seq<char>) -> nat
    decreases s.len(),
{
    if s.len() == 0 {
        0
    } else {
        digits_value(s.drop_last()) * 10 + ((s.last() as u32) - ('0' as u32)) as nat
    }
}

/// `str::parse` of an unsigned integer type whose largest value is `max`:
/// an optional `+`, then at least one decimal digit and nothing else, of a
/// value that fits.
pub open spec fn parse_unsigned(s: Seq<char>, max: nat) -> Option<nat> {
    let t = if s.len() > 0 && s[0] == '+' {
        s.drop_first()
    } else {
        s
    };
    if t.len() == 0 || !all_digits(t) || digits_value(t) > max {
        None
    } else {
        Some(digits_value(t))
    }
}

/// Parses `s[start..end]` as an unsigned number of at most `max`.
pub fn parse_unsigned_in(s: &Vec<char>, start: usize, end: usize, max: u32) -> (r: Option<u32>)
    requires
        start <= end <= s@.len(),
    ensures
        match parse_unsigned(s@.subrange(start as int, end as int), max as nat) {
            Some(v) => r == Some(v as u32),
            None => r is None,
        },
{
    let ghost whole = s@.subrange(start as int, end as int);
    let mut first = start;
    if start < end && s[start] == '+' {
        first = start + 1;
    }
    let ghost t = s@.subrange(first as int, end as int);
    assert(t =~= if whole.len() > 0 && whole[0] == '+' {
        whole.drop_first()
    } else {
        whole
    });
    if first == end {
        return None;
    }
    let mut value: u64 = 0;
    let mut k: usize = first;
    while k < end
        invariant
            start <= first <= k <= end <= s@.len(),
            first < end,
            t == s@.subrange(first as int, end as int),
            whole == s@.subrange(start as int, end as int),
            t == (if whole.len() > 0 && whole[0] == '+' {
                whole.drop_first()
            } else {
                whole
            }),
            all_digits(s@.subrange(first as int, k as int)),
            value == if digits_value(s@.subrange(first as int, k as int)) > max {
                max + 1
            } else {
                digits_value(s@.subrange(first as int, k as int)) as int
            },
        decreases end - k,
    {
        let c = s[k];
        let u = c as u32;
        if u < 0x30 || u > 0x39 {
            assert(!all_digits(t)) by {
                assert(t[k - first] == c);
            }
            return None;
        }
        let d = (u - 0x30) as u64;
        let ghost prefix = s@.subrange(first as int, k + 1);
        assert(prefix.drop_last() =~= s@.subrange(first as int, k as int));
        assert(prefix.last() == c);
        if value > max as u64 {
            value = max as u64 + 1;
        } else {
            let next = value * 10 + d;
            value = if next > max as u64 {
                max as u64 + 1
            } else {
                next
            };
        }
        k = k + 1;
    }
    if value > max as u64 {
        None
    } else {
        Some(value as u32)
    }
}

/// The position of the first line feed of `t`, if any.
pub open spec fn newline(t: Seq<char>) -> Option<int> {
    find(t, seq!['\n'])
}

/// `t` without one final carriage return.
pub open spec fn strip_cr(t: Seq<char>) -> Seq<char> {
    if t.len() > 0 && t.last() == '\r' {
        t.drop_last()
    } else {
        t
    }
}

/// The first line of `t`, as `str::lines` yields it: up to the first line
/// feed, without it and without a carriage return before it; all of `t` when
/// it holds no line feed.
pub open spec fn first_line(t: Seq<char>) -> Seq<char> {
    match newline(t) {
        Some(k) => if 0 <= k <= t.len() {
            strip_cr(t.take(k))
        } else {
            t
        },
        None => t,
    }
}

/// What follows the first line feed of `t` (nothing when there is none).
pub open spec fn after_first_line(t: Seq<char>) -> Seq<char> {
    match newline(t) {
        Some(k) => if 0 <= k < t.len() {
            t.skip(k + 1)
        } else {
            Seq::empty()
        },
        None => Seq::empty(),
    }
}

/// The next line of `s` from `start`: its bounds, and where the line after it starts.
pub fn next_line(s: &Vec<char>, start: usize) -> (r: (usize, usize, usize))
    requires
        start < s@.len(),
    ensures
        start <= r.0 <= r.1 <= s@.len(),
        start < r.2 <= s@.len(),
        s@.subrange(r.0 as int, r.1 as int) == first_line(s@.skip(start as int)),
        s@.skip(r.2 as int) == after_first_line(s@.skip(start as int)),
{
    let n = s.len();
    let mut pattern: Vec<char> = Vec::new();
    pattern.push('\n');
    assert(pattern@ =~= seq!['\n']);
    let found = find_in(s, start, n, &pattern);
    let ghost t = s@.skip(start as int);
    assert(s@.subrange(start as int, n as int) =~= t);
    proof {
        lemma_find_from(t, seq!['\n'], 0);
    }
    match found {
        Some(nl) => {
            let mut end = nl;
            if end > start && s[end - 1] == '\r' {
                end = end - 1;
            }
            proof {
                let k = nl - start;
                assert(t.take(k) =~= s@.subrange(start as int, nl as int));
                assert(t.skip(k + 1) =~= s@.skip(nl + 1));
            }
            assert(s@.subrange(start as int, end as int) =~= first_line(t));
            (start, end, nl + 1)
        },
        None => {
            assert(s@.subrange(start as int, n as int) =~= first_line(t));
            assert(s@.skip(n as int) =~= after_first_line(t));
            (start, n, n)
        },
    }
}

/// Whether the characters of `a[start..end]` are those of `b`.
pub fn same_chars(a: &Vec<char>, start: usize, end: usize, b: &Vec<char>) -> (same: bool)
    requires
        start <= end <= a@.len(),
    ensures
        same == (a@.subrange(start as int, end as int) == b@),
{
    if end - start != b.len() {
        return false;
    }
    let mut k: usize = 0;
    while k < b.len()
        invariant
            start <= end <= a@.len(),
            end - start == b@.len(),
            k <= b@.len(),
            forall|j: int| 0 <= j < k ==> a@[start + j] == b@[j],
        decreases b@.len() - k,
    {
        if a[start + k] != b[k] {
            assert(a@.subrange(start as int, end as int)[k as int] != b@[k as int]);
            return false;
        }
        k = k + 1;
    }
    assert(a@.subrange(start as int, end as int) =~= b@);
    true
}

/// How many characters that are not white space `s` starts with.
pub open spec fn token_len(s: Seq<char>) -> nat
    decreases s.len(),
{
    if s.len() > 0 && !is_space(s[0]) {
        1 + token_len(s.drop_first())
    } else {
        0
    }
}

proof fn lemma_token_len(s: Seq<char>, a: int)
    requires
        0 <= a <= s.len(),
        forall|j: int| 0 <= j < a ==> !is_space(#[trigger] s[j]),
        a == s.len() || is_space(s[a]),
    ensures
        token_len(s) == a,
    decreases a,
{
    if a > 0 {
        lemma_token_len(s.drop_first(), a - 1);
    }
}

/// `str::split_whitespace().next()`: the first maximal run of characters
/// that are not white space, if any.
pub open spec fn first_token(s: Seq<char>) -> Option<Seq<char>> {
    let a = leading_spaces(s);
    if a >= s.len() {
        None
    } else {
        let rest = s.skip(a as int);
        Some(rest.take(token_len(rest) as int))
    }
}

/// The bounds of the first token of `s[start..end]`.
pub fn first_token_in(s: &Vec<char>, start: usize, end: usize) -> (r: Option<(usize, usize)>)
    requires
        start <= end <= s@.len(),
    ensures
        match first_token(s@.subrange(start as int, end as int)) {
            Some(tok) => r matches Some((a, b)) && start <= a <= b <= end && s@.subrange(
                a as int,
                b as int,
            ) == tok,
            None => r is None,
        },
{
    let ghost line = s@.subrange(start as int, end as int);
    let mut a = start;
    while a < end && is_space_char(s[a])
        invariant
            start <= a <= end <= s@.len(),
            forall|j: int| 0 <= j < a - start ==> is_space(#[trigger] line[j]),
            line == s@.subrange(start as int, end as int),
        decreases end - a,
    {
        a = a + 1;
    }
    proof {
        if a < end {
            assert(line[a - start] == s@[a as int]);
        }
        lemma_leading_spaces(line, a - start);
    }
    if a == end {
        return None;
    }
    let mut b = a;
    while b < end && !is_space_char(s[b])
        invariant
            start <= a <= b <= end <= s@.len(),
            forall|j: int| a <= j < b ==> !is_space(#[trigger] s@[j]),
        decreases end - b,
    {
        b = b + 1;
    }
    proof {
        let rest = line.skip(a - start);
        assert forall|j: int| 0 <= j < b - a implies !is_space(#[trigger] rest[j]) by {
            assert(rest[j] == s@[a + j]);
        }
        if b < end {
            assert(rest[b - a] == s@[b as int]);
        }
        lemma_token_len(rest, b - a);
        assert(s@.subrange(a as int, b as int) =~= rest.take(b - a));
    }
    Some((a, b))
}

/// Whether all characters of `s[start..end]` are ASCII decimal digits.
pub fn digits_only(s: &Vec<char>, start: usize, end: usize) -> (b: bool)
    requires
        start <= end <= s@.len(),
    ensures
        b == all_digits(s@.subrange(start as int, end as int)),
{
    let mut k = start;
    while k < end
        invariant
            start <= k <= end <= s@.len(),
            forall|j: int| start <= j < k ==> is_digit(#[trigger] s@[j]),
        decreases end - k,
    {
        let u = s[k] as u32;
        if u < 0x30 || u > 0x39 {
            assert(s@.subrange(start as int, end as int)[k - start] == s@[k as int]);
            return false;
        }
        k = k + 1;
    }
    assert forall|j: int| 0 <= j < end - start implies is_digit(
        #[trigger] s@.subrange(start as int, end as int)[j],
    ) by {
        assert(s@.subrange(start as int, end as int)[j] == s@[start + j]);
    }
    true
}

/// `char::to_ascii_lowercase`.
pub open spec fn ascii_lower(c: char) -> char {
    if 'A' as u32 <= c as u32 <= 'Z' as u32 {
        ((c as u32) + 32) as char
    } else {
        c
    }
}

/// `str::to_ascii_lowercase`.
pub open spec fn lower(s: Seq<char>) -> Seq<char> {
    s.map_values(|c: char| ascii_lower(c))
}

/// Whether `a`, lowered to ASCII lower case, equals `b`, which holds no
/// upper-case ASCII letter.
pub fn lower_equals(a: &Vec<char>, b: &Vec<char>) -> (same: bool)
    requires
        forall|j: int| 0 <= j < b@.len() ==> !('A' as u32 <= #[trigger] b@[j] as u32 <= 'Z' as u32),
    ensures
        same == (lower(a@) == b@),
{
    if a.len() != b.len() {
        assert(lower(a@).len() != b@.len());
        return false;
    }
    let mut k: usize = 0;
    while k < a.len()
        invariant
            a@.len() == b@.len(),
            k <= a@.len(),
            forall|j: int| 0 <= j < k ==> ascii_lower(#[trigger] a@[j]) == b@[j],
            forall|j: int| 0 <= j < b@.len() ==> !('A' as u32 <= #[trigger] b@[j] as u32 <= 'Z' as u32),
        decreases a@.len() - k,
    {
        let c = a[k] as u32;
        let t = b[k] as u32;
        let equal = if 0x41 <= c && c <= 0x5a {
            c + 32 == t
        } else {
            c == t
        };
        proof {
            vstd::utf8::char_u32_cast(b@[k as int], t);
            vstd::utf8::char_u32_cast(a@[k as int], c);
            if equal {
                if 0x41 <= c <= 0x5a {
                    assert(((c + 32) as u32) as char == b@[k as int]);
                } else {
                    assert((c as u32) as char == b@[k as int]);
                }
                assert(ascii_lower(a@[k as int]) == b@[k as int]);
            } else if 0x41 <= c <= 0x5a {
                assert(ascii_lower(a@[k as int]) as u32 == c + 32);
            }
        }
        if !equal {
            assert(lower(a@)[k as int] != b@[k as int]);
            return false;
        }
        k = k + 1;
    }
    assert(lower(a@) =~= b@);
    true
}

proof fn lemma_digit_char(k: nat)
    requires
        k < 10,
    ensures
        digit_char(k) as u32 - '0' as u32 == k,
        is_digit(digit_char(k)),
        digit_char(k) != '+',
        !is_space(digit_char(k)),
{
    assert('0' as u32 == 48);
    if k == 0 {
        assert('0' as u32 == 48);
    } else if k == 1 {
        assert('1' as u32 == 49);
    } else if k == 2 {
        assert('2' as u32 == 50);
    } else if k == 3 {
        assert('3' as u32 == 51);
    } else if k == 4 {
        assert('4' as u32 == 52);
    } else if k == 5 {
        assert('5' as u32 == 53);
    } else if k == 6 {
        assert('6' as u32 == 54);
    } else if k == 7 {
        assert('7' as u32 == 55);
    } else if k == 8 {
        assert('8' as u32 == 56);
    } else {
        assert('9' as u32 == 57);
    }
}

proof fn lemma_decimal_digits(n: nat)
    ensures
        decimal(n).len() >= 1,
        all_digits(decimal(n)),
        digits_value(decimal(n)) == n,
        decimal(n)[0] != '+',
        forall|i: int| 0 <= i < decimal(n).len() ==> !is_space(#[trigger] decimal(n)[i]),
    decreases n,
{
    let d = decimal(n);
    if n < 10 {
        lemma_digit_char(n);
        assert(d.drop_last() =~= Seq::<char>::empty());
        assert(d.last() == digit_char(n));
        assert(digits_value(Seq::<char>::empty()) == 0);
        assert(digits_value(d) == digits_value(d.drop_last()) * 10 + (d.last() as u32 - '0' as u32) as nat);
    } else {
        lemma_decimal_digits(n / 10);
        lemma_digit_char(n % 10);
        let p = decimal(n / 10);
        assert(d.drop_last() =~= p);
        assert(d.last() == digit_char(n % 10));
        assert(digits_value(d) == digits_value(p) * 10 + (n % 10));
        assert((n / 10) * 10 + n % 10 == n);
        assert(d[0] == p[0]);
        assert forall|i: int| 0 <= i < d.len() implies is_digit(#[trigger] d[i]) && !is_space(d[i]) by {
            if i < p.len() {
                assert(d[i] == p[i]);
            }
        }
    }
}

/// What is written in decimal reads back: trimming and parsing the decimal
/// representation of `n` gives `n`, for every type whose maximum is at least `n`.
pub proof fn lemma_decimal_parses_back(n: nat, max: nat)
    requires
        n <= max,
    ensures
        parse_unsigned(trim(decimal(n)), max) == Some(n),
{
    lemma_decimal_digits(n);
    let d = decimal(n);
    lemma_leading_spaces(d, 0);
    assert(d.skip(0) =~= d);
    lemma_trailing_spaces(d, d.len() as int);
    assert(d.take(d.len() as int) =~= d);
    assert(trim(d) == d);
}

/// `a` sorts at or before `b` in lexicographic order of code points (the
/// order of `str`'s `Ord`, which compares UTF-8 bytes).
pub open spec fn lex_le(a: Seq<char>, b: Seq<char>) -> bool
    decreases a.len(),
{
    if a.len() == 0 {
        true
    } else if b.len() == 0 {
        false
    } else if (a[0] as u32) < (b[0] as u32) {
        true
    } else if (a[0] as u32) > (b[0] as u32) {
        false
    } else {
        lex_le(a.drop_first(), b.drop_first())
    }
}

/// The order is total.
pub proof fn lemma_lex_total(a: Seq<char>, b: Seq<char>)
    ensures
        lex_le(a, b) || lex_le(b, a),
    decreases a.len(),
{
    if a.len() > 0 && b.len() > 0 && a[0] as u32 == b[0] as u32 {
        lemma_lex_total(a.drop_first(), b.drop_first());
    }
}

/// The order is reflexive.
pub proof fn lemma_lex_reflexive(a: Seq<char>)
    ensures
        lex_le(a, a),
    decreases a.len(),
{
    if a.len() > 0 {
        lemma_lex_reflexive(a.drop_first());
    }
}

/// The order is transitive.
pub proof fn lemma_lex_transitive(a: Seq<char>, b: Seq<char>, c: Seq<char>)
    requires
        lex_le(a, b),
        lex_le(b, c),
    ensures
        lex_le(a, c),
    decreases a.len(),
{
    if a.len() > 0 && b.len() > 0 && c.len() > 0 && a[0] as u32 == b[0] as u32 && b[0] as u32
        == c[0] as u32 {
        lemma_lex_transitive(a.drop_first(), b.drop_first(), c.drop_first());
    }
}

/// The order is antisymmetric.
pub proof fn lemma_lex_antisymmetric(a: Seq<char>, b: Seq<char>)
    requires
        lex_le(a, b),
        lex_le(b, a),
    ensures
        a == b,
    decreases a.len(),
{
    if a.len() > 0 {
        lemma_lex_antisymmetric(a.drop_first(), b.drop_first());
        vstd::utf8::char_u32_cast(a[0], a[0] as u32);
        vstd::utf8::char_u32_cast(b[0], b[0] as u32);
        assert(a =~= seq![a[0]] + a.drop_first());
        assert(b =~= seq![b[0]] + b.drop_first());
    } else {
        assert(b.len() == 0);
        assert(a =~= b);
    }
}

/// Whether `a` sorts at or before `b`.
pub fn chars_le(a: &Vec<char>, b: &Vec<char>) -> (le: bool)
    ensures
        le == lex_le(a@, b@),
{
    let mut k: usize = 0;
    assert(a@.skip(0) =~= a@);
    assert(b@.skip(0) =~= b@);
    while k < a.len() && k < b.len()
        invariant
            k <= a@.len(),
            k <= b@.len(),
            forall|j: int| 0 <= j < k ==> a@[j] as u32 == b@[j] as u32,
            lex_le(a@, b@) == lex_le(a@.skip(k as int), b@.skip(k as int)),
        decreases a@.len() - k,
    {
        let x = a[k] as u32;
        let y = b[k] as u32;
        proof {
            assert(a@.skip(k as int)[0] == a@[k as int]);
            assert(b@.skip(k as int)[0] == b@[k as int]);
            assert(a@.skip(k as int).drop_first() =~= a@.skip(k + 1));
            assert(b@.skip(k as int).drop_first() =~= b@.skip(k + 1));
        }
        if x < y {
            return true;
        }
        if x > y {
            return false;
        }
        k = k + 1;
    }
    assert(a@.skip(k as int).len() == a@.len() - k);
    assert(b@.skip(k as int).len() == b@.len() - k);
    k == a.len()
}

proof fn lemma_find_from_first(h: Seq<char>, n: Seq<char>, i: int)
    requires
        0 <= i,
    ensures
        find_from(h, n, i) matches Some(k) ==> i <= k && k + n.len() <= h.len() && h.subrange(
            k,
            k + n.len(),
        ) == n && forall|j: int|
            i <= j < k ==> #[trigger] h.subrange(j, j + n.len()) != n,
        find_from(h, n, i) is None ==> forall|j: int|
            i <= j && j + n.len() <= h.len() ==> #[trigger] h.subrange(j, j + n.len()) != n,
    decreases h.len() + 1 - i,
{
    if !(i + n.len() > h.len()) && h.subrange(i, i + n.len()) != n {
        lemma_find_from_first(h, n, i + 1);
    }
}

/// `find` gives the first position where the pattern occurs, and nothing only
/// when it occurs nowhere; so `contains` holds exactly when it occurs.
pub proof fn lemma_find_first(h: Seq<char>, n: Seq<char>)
    ensures
        find(h, n) matches Some(k) ==> 0 <= k && k + n.len() <= h.len() && h.subrange(k, k + n.len())
            == n && forall|j: int| 0 <= j < k ==> #[trigger] h.subrange(j, j + n.len()) != n,
        find(h, n) is None ==> forall|j: int|
            0 <= j && j + n.len() <= h.len() ==> #[trigger] h.subrange(j, j + n.len()) != n,
        contains(h, n) <==> exists|j: int|
            0 <= j && j + n.len() <= h.len() && #[trigger] h.subrange(j, j + n.len()) == n,
{
    lemma_find_from_first(h, n, 0);
    if let Some(k) = find(h, n) {
        assert(h.subrange(k, k + n.len()) == n);
    }
}

proof fn lemma_leading_spaces_shape(s: Seq<char>)
    ensures
        leading_spaces(s) <= s.len(),
        forall|j: int| 0 <= j < leading_spaces(s) ==> is_space(#[trigger] s[j]),
        leading_spaces(s) < s.len() ==> !is_space(s[leading_spaces(s) as int]),
    decreases s.len(),
{
    if s.len() > 0 && is_space(s[0]) {
        lemma_leading_spaces_shape(s.drop_first());
        assert forall|j: int| 0 <= j < leading_spaces(s) implies is_space(#[trigger] s[j]) by {
            if j > 0 {
                assert(s[j] == s.drop_first()[j - 1]);
            }
        }
    }
}

proof fn lemma_trailing_spaces_shape(s: Seq<char>)
    ensures
        trailing_spaces(s) <= s.len(),
        forall|j: int| s.len() - trailing_spaces(s) <= j < s.len() ==> is_space(#[trigger] s[j]),
        trailing_spaces(s) < s.len() ==> !is_space(s[s.len() - trailing_spaces(s) - 1]),
    decreases s.len(),
{
    if s.len() > 0 && is_space(s.last()) {
        lemma_trailing_spaces_shape(s.drop_last());
        assert forall|j: int| s.len() - trailing_spaces(s) <= j < s.len() implies is_space(
            #[trigger] s[j],
        ) by {
            if j < s.len() - 1 {
                assert(s[j] == s.drop_last()[j]);
            }
        }
    }
}

/// `trim` removes exactly the white space at both ends: what is left is a
/// stretch of `s` that neither starts nor ends with white space, and all
/// that is cut before and after it is white space.
pub proof fn lemma_trim_shape(s: Seq<char>)
    ensures
        exists|a: int, b: int|
            {
                &&& 0 <= a <= b <= s.len()
                &&& trim(s) == s.subrange(a, b)
                &&& forall|j: int| 0 <= j < a ==> is_space(#[trigger] s[j])
                &&& forall|j: int| b <= j < s.len() ==> is_space(#[trigger] s[j])
                &&& a < b ==> !is_space(s[a]) && !is_space(s[b - 1])
            },
{
    let a = leading_spaces(s) as int;
    lemma_leading_spaces_shape(s);
    let t = s.skip(a);
    lemma_trailing_spaces_shape(t);
    let b = a + t.len() - trailing_spaces(t);
    assert(trim(s) =~= s.subrange(a, b));
    assert forall|j: int| b <= j < s.len() implies is_space(#[trigger] s[j]) by {
        assert(s[j] == t[j - a]);
    }
    if a < b {
        assert(s[b - 1] == t[b - 1 - a]);
    }
}

proof fn lemma_token_len_shape(s: Seq<char>)
    ensures
        token_len(s) <= s.len(),
        forall|j: int| 0 <= j < token_len(s) ==> !is_space(#[trigger] s[j]),
        token_len(s) < s.len() ==> is_space(s[token_len(s) as int]),
    decreases s.len(),
{
    if s.len() > 0 && !is_space(s[0]) {
        lemma_token_len_shape(s.drop_first());
        assert forall|j: int| 0 <= j < token_len(s) implies !is_space(#[trigger] s[j]) by {
            if j > 0 {
                assert(s[j] == s.drop_first()[j - 1]);
            }
        }
    }
}

/// The first token is the first run of characters that are not white space:
/// it starts at the returned position `a`, is preceded by white space only,
/// and is ended by white space or by the end of `s`. There is none exactly
/// when `s` is all white space.
pub proof fn lemma_first_token_shape(s: Seq<char>) -> (a: int)
    ensures
        first_token(s) is None <==> forall|j: int| 0 <= j < s.len() ==> is_space(#[trigger] s[j]),
        first_token(s) is Some ==> {
            let t = first_token(s)->Some_0;
            &&& 0 <= a && a + t.len() <= s.len()
            &&& t.len() > 0
            &&& s.subrange(a, a + t.len()) == t
            &&& forall|j: int| 0 <= j < a ==> is_space(#[trigger] s[j])
            &&& forall|j: int| a <= j < a + t.len() ==> !is_space(#[trigger] s[j])
            &&& a + t.len() < s.len() ==> is_space(s[a + t.len()])
        },
{
    let a = leading_spaces(s) as int;
    lemma_leading_spaces_shape(s);
    if a < s.len() {
        let rest = s.skip(a);
        lemma_token_len_shape(rest);
        let n = token_len(rest) as int;
        assert(n > 0) by {
            assert(rest[0] == s[a]);
        }
        let t = rest.take(n);
        assert(s.subrange(a, a + n) =~= t);
        assert forall|j: int| a <= j < a + n implies !is_space(#[trigger] s[j]) by {
            assert(s[j] == rest[j - a]);
        }
        if a + n < s.len() {
            assert(s[a + n] == rest[n]);
        }
        assert(!is_space(s[a]));
    }
    a
}

/// How text is cut into lines: the first line runs up to the first line
/// feed, which is at the returned position `k`, without it and without a
/// carriage return just before it, and the rest follows the line feed; text
/// with no line feed is one line with nothing after it.
pub proof fn lemma_line_split(t: Seq<char>) -> (k: int)
    ensures
        (forall|j: int| 0 <= j < t.len() ==> #[trigger] t[j] != '\n') ==> first_line(t) == t
            && after_first_line(t) == Seq::<char>::empty(),
        (exists|j: int| 0 <= j < t.len() && #[trigger] t[j] == '\n') ==> {
            &&& 0 <= k < t.len()
            &&& t[k] == '\n'
            &&& forall|j: int| 0 <= j < k ==> #[trigger] t[j] != '\n'
            &&& after_first_line(t) == t.skip(k + 1)
            &&& first_line(t) == if k > 0 && t[k - 1] == '\r' {
                t.take(k - 1)
            } else {
                t.take(k)
            }
        },
{
    let n = seq!['\n'];
    lemma_find_first(t, n);
    match find(t, n) {
        Some(k) => {
            assert(t.subrange(k, k + 1) =~= n);
            assert(t[k] == t.subrange(k, k + 1)[0]);
            assert forall|j: int| 0 <= j < k implies #[trigger] t[j] != '\n' by {
                assert(t.subrange(j, j + 1) != n);
                if t[j] == '\n' {
                    assert(t.subrange(j, j + 1) =~= n);
                }
            }
            if k > 0 && t[k - 1] == '\r' {
                assert(t.take(k).drop_last() =~= t.take(k - 1));
            }
            k
        },
        None => {
            assert forall|j: int| 0 <= j < t.len() implies #[trigger] t[j] != '\n' by {
                assert(t.subrange(j, j + 1) != n);
                if t[j] == '\n' {
                    assert(t.subrange(j, j + 1) =~= n);
                }
            }
            0
        },
    }
}

} // verus!
