//! Text helpers over character sequences.

use vstd::prelude::*;

verus! {

/// `String::push` appends one character and leaves the rest alone.
pub assume_specification[ String::push ](string: &mut String, ch: char)
    ensures
        final(string)@ == old(string)@.push(ch),
;

/// The characters that Unicode gives the property `White_Space`.
pub open spec fn white_space(c: char) -> bool {
    let n = c as u32;
    ||| 0x09 <= n <= 0x0d
    ||| n == 0x20
    ||| n == 0x85
    ||| n == 0xa0
    ||| n == 0x1680
    ||| 0x2000 <= n <= 0x200a
    ||| n == 0x2028
    ||| n == 0x2029
    ||| n == 0x202f
    ||| n == 0x205f
    ||| n == 0x3000
}

pub fn is_white_space(c: char) -> (r: bool)
    ensures
        r == white_space(c),
{
    let n: u32 = c as u32;
    (0x09 <= n && n <= 0x0d) || n == 0x20 || n == 0x85 || n == 0xa0 || n == 0x1680 || (0x2000 <= n
        && n <= 0x200a) || n == 0x2028 || n == 0x2029 || n == 0x202f || n == 0x205f || n == 0x3000
}

/// `s` without its leading white space.
pub open spec fn trimmed_start(s: Seq<char>) -> Seq<char>
    decreases s.len(),
{
    if s.len() > 0 && white_space(s[0]) {
        trimmed_start(s.subrange(1, s.len() as int))
    } else {
        s
    }
}

/// `s` without its trailing white space.
pub open spec fn trimmed_end(s: Seq<char>) -> Seq<char>
    decreases s.len(),
{
    if s.len() > 0 && white_space(s[s.len() - 1]) {
        trimmed_end(s.subrange(0, s.len() - 1))
    } else {
        s
    }
}

/// `s` without white space at either end.
pub open spec fn trimmed(s: Seq<char>) -> Seq<char> {
    trimmed_end(trimmed_start(s))
}

/// Whether nothing but white space is in `s`.
pub open spec fn blank(s: Seq<char>) -> bool {
    trimmed(s).len() == 0
}

/// The characters of `s` as a vector.
pub fn chars_of(s: &str) -> (r: Vec<char>)
    ensures
        r@ == s@,
{
    let mut out: Vec<char> = Vec::new();
    for c in it: s.chars()
        invariant
            out@ == it.seq().take(it.index()),
            it.seq() == s@,
    {
        out.push(c);
    }
    out
}

/// The string made of `chars[from..to]`.
pub fn string_of(chars: &Vec<char>, from: usize, to: usize) -> (r: String)
    requires
        from <= to <= chars@.len(),
    ensures
        r@ == chars@.subrange(from as int, to as int),
{
    let mut out = String::new();
    let mut i: usize = from;
    while i < to
        invariant
            from <= i <= to <= chars@.len(),
            out@ == chars@.subrange(from as int, i as int),
        decreases to - i,
    {
        out.push(chars[i]);
        i += 1;
    }
    out
}

/// Text equality.
pub fn same_text(a: &str, b: &str) -> (r: bool)
    ensures
        r == (a@ == b@),
{
    a.to_owned() == b.to_owned()
}

/// `a` followed by `b`.
pub fn joined(a: &str, b: &str) -> (r: String)
    ensures
        r@ == a@ + b@,
{
    let mut out = a.to_owned();
    out.append(b);
    out
}

/// `a`, `b` and `c` one after the other.
pub fn joined3(a: &str, b: &str, c: &str) -> (r: String)
    ensures
        r@ == a@ + b@ + c@,
{
    let mut out = a.to_owned();
    out.append(b);
    out.append(c);
    out
}

proof fn lemma_trimmed_start(s: Seq<char>, k: int)
    requires
        0 <= k <= s.len(),
        forall|i: int| 0 <= i < k ==> white_space(s[i]),
        k < s.len() ==> !white_space(s[k]),
    ensures
        trimmed_start(s) == s.subrange(k, s.len() as int),
    decreases s.len(),
{
    if k == 0 {
        assert(s.subrange(0, s.len() as int) == s);
    } else {
        let t = s.subrange(1, s.len() as int);
        lemma_trimmed_start(t, k - 1);
        assert(t.subrange(k - 1, t.len() as int) == s.subrange(k, s.len() as int));
    }
}

proof fn lemma_trimmed_end(s: Seq<char>, k: int)
    requires
        0 <= k <= s.len(),
        forall|i: int| k <= i < s.len() ==> white_space(s[i]),
        k > 0 ==> !white_space(s[k - 1]),
    ensures
        trimmed_end(s) == s.subrange(0, k),
    decreases s.len(),
{
    if k == s.len() {
        assert(s.subrange(0, k) == s);
    } else {
        let t = s.subrange(0, s.len() - 1);
        lemma_trimmed_end(t, k);
        assert(t.subrange(0, k) == s.subrange(0, k));
    }
}

/// Where the white space at the end of `chars[from..]` begins.
fn end_of_text(chars: &Vec<char>, from: usize) -> (r: usize)
    requires
        from <= chars@.len(),
    ensures
        from <= r <= chars@.len(),
        trimmed_end(chars@.subrange(from as int, chars@.len() as int)) == chars@.subrange(
            from as int,
            r as int,
        ),
{
    let mut to: usize = chars.len();
    while to > from && is_white_space(chars[to - 1])
        invariant
            from <= to <= chars@.len(),
            forall|i: int| to <= i < chars@.len() ==> white_space(chars@[i]),
        decreases to,
    {
        to -= 1;
    }
    proof {
        let rest = chars@.subrange(from as int, chars@.len() as int);
        lemma_trimmed_end(rest, to - from);
        assert(rest.subrange(0, to - from) == chars@.subrange(from as int, to as int));
    }
    to
}

/// `s` without white space at either end.
pub fn trim(s: &str) -> (r: String)
    ensures
        r@ == trimmed(s@),
{
    let chars = chars_of(s);
    let mut from: usize = 0;
    while from < chars.len() && is_white_space(chars[from])
        invariant
            from <= chars@.len(),
            forall|i: int| 0 <= i < from ==> white_space(chars@[i]),
        decreases chars@.len() - from,
    {
        from += 1;
    }
    proof {
        lemma_trimmed_start(chars@, from as int);
    }
    let to = end_of_text(&chars, from);
    string_of(&chars, from, to)
}

/// `s` without white space at its end.
pub fn trim_end(s: &str) -> (r: String)
    ensures
        r@ == trimmed_end(s@),
{
    let chars = chars_of(s);
    let to = end_of_text(&chars, 0);
    assert(chars@.subrange(0, chars@.len() as int) == chars@);
    string_of(&chars, 0, to)
}

/// Whether nothing but white space is in `s`.
pub fn is_blank(s: &str) -> (r: bool)
    ensures
        r == blank(s@),
{
    trim(s).as_str().is_empty()
}

/// `pat` stands in `s` at position `i`.
pub open spec fn occurs_at(s: Seq<char>, pat: Seq<char>, i: int) -> bool {
    &&& 0 <= i
    &&& i + pat.len() <= s.len()
    &&& s.subrange(i, i + pat.len()) == pat
}

/// `s` begins with `pat`.
pub open spec fn begins(s: Seq<char>, pat: Seq<char>) -> bool {
    occurs_at(s, pat, 0)
}

/// `s` ends with `pat`.
pub open spec fn finishes(s: Seq<char>, pat: Seq<char>) -> bool {
    occurs_at(s, pat, s.len() - pat.len())
}

/// The first position from `from` on at which `pat` stands in `s`.
pub open spec fn found_from(s: Seq<char>, pat: Seq<char>, from: int) -> Option<int>
    decreases s.len() + 1 - from,
{
    if from < 0 || from + pat.len() > s.len() {
        None
    } else if occurs_at(s, pat, from) {
        Some(from)
    } else {
        found_from(s, pat, from + 1)
    }
}

/// The first position at which `pat` stands in `s`.
pub open spec fn found(s: Seq<char>, pat: Seq<char>) -> Option<int> {
    found_from(s, pat, 0)
}

/// The last position up to `upto` at which `pat` stands in `s`.
pub open spec fn found_back(s: Seq<char>, pat: Seq<char>, upto: int) -> Option<int>
    decreases upto + 1,
{
    if upto < 0 {
        None
    } else if occurs_at(s, pat, upto) {
        Some(upto)
    } else {
        found_back(s, pat, upto - 1)
    }
}

/// The last position at which `pat` stands in `s`.
pub open spec fn found_last(s: Seq<char>, pat: Seq<char>) -> Option<int> {
    found_back(s, pat, s.len() - pat.len())
}

/// `pat` stands somewhere in `s`.
pub open spec fn has(s: Seq<char>, pat: Seq<char>) -> bool {
    found(s, pat) is Some
}

/// A search from `from` stops at the first occurrence.
pub proof fn lemma_found_from(s: Seq<char>, pat: Seq<char>, from: int)
    requires
        0 <= from,
    ensures
        match found_from(s, pat, from) {
            Some(i) => from <= i && occurs_at(s, pat, i) && forall|j: int|
                from <= j < i ==> !occurs_at(s, pat, j),
            None => forall|j: int| from <= j ==> !occurs_at(s, pat, j),
        },
    decreases s.len() + 1 - from,
{
    if from + pat.len() <= s.len() && !occurs_at(s, pat, from) {
        lemma_found_from(s, pat, from + 1);
    }
}

/// A search backwards stops at the last occurrence.
pub proof fn lemma_found_back(s: Seq<char>, pat: Seq<char>, upto: int)
    ensures
        match found_back(s, pat, upto) {
            Some(i) => i <= upto && occurs_at(s, pat, i) && forall|j: int|
                i < j <= upto ==> !occurs_at(s, pat, j),
            None => forall|j: int| j <= upto ==> !occurs_at(s, pat, j),
        },
    decreases upto + 1,
{
    if upto >= 0 && !occurs_at(s, pat, upto) {
        lemma_found_back(s, pat, upto - 1);
    }
}

/// Whether `pat` stands in `s` at position `i`.
pub fn stands_at(s: &Vec<char>, pat: &Vec<char>, i: usize) -> (r: bool)
    ensures
        r == occurs_at(s@, pat@, i as int),
{
    if pat.len() > s.len() || i > s.len() - pat.len() {
        return false;
    }
    let total: usize = s.len();
    let mut k: usize = 0;
    while k < pat.len()
        invariant
            k <= pat@.len(),
            total == s@.len(),
            i + pat@.len() <= total,
            forall|j: int| 0 <= j < k ==> s@[i + j] == pat@[j],
        decreases pat@.len() - k,
    {
        if s[i + k] != pat[k] {
            assert(s@.subrange(i as int, i + pat@.len())[k as int] != pat@[k as int]);
            return false;
        }
        k += 1;
    }
    assert(s@.subrange(i as int, i + pat@.len()) =~= pat@);
    true
}

/// The first position from `from` on at which `pat` stands in `s`.
pub fn find_from(s: &Vec<char>, pat: &Vec<char>, from: usize) -> (r: Option<usize>)
    ensures
        r matches Some(i) ==> found_from(s@, pat@, from as int) == Some(i as int),
        r is None ==> found_from(s@, pat@, from as int) is None,
{
    let mut i: usize = from;
    if pat.len() > s.len() {
        return None;
    }
    let last: usize = s.len() - pat.len();
    while i <= last
        invariant
            from <= i,
            last == s@.len() - pat@.len(),
            found_from(s@, pat@, i as int) == found_from(s@, pat@, from as int),
        decreases last + 1 - i,
    {
        if stands_at(s, pat, i) {
            return Some(i);
        }
        if i == last {
            assert(found_from(s@, pat@, i + 1) is None);
            return None;
        }
        i += 1;
    }
    None
}

/// The first position at which `pat` stands in `s`, counted in characters.
pub fn find(s: &str, pat: &str) -> (r: Option<usize>)
    ensures
        r matches Some(i) ==> found(s@, pat@) == Some(i as int),
        r is None ==> found(s@, pat@) is None,
{
    find_from(&chars_of(s), &chars_of(pat), 0)
}

/// The last position at which `pat` stands in `s`, counted in characters.
pub fn find_last(s: &str, pat: &str) -> (r: Option<usize>)
    ensures
        r matches Some(i) ==> found_last(s@, pat@) == Some(i as int),
        r is None ==> found_last(s@, pat@) is None,
{
    let chars = chars_of(s);
    let pattern = chars_of(pat);
    if pattern.len() > chars.len() {
        return None;
    }
    let mut i: usize = chars.len() - pattern.len();
    loop
        invariant
            chars@ == s@,
            pattern@ == pat@,
            i <= s@.len() - pat@.len(),
            found_back(s@, pat@, i as int) == found_last(s@, pat@),
        decreases i,
    {
        if stands_at(&chars, &pattern, i) {
            return Some(i);
        }
        if i == 0 {
            assert(found_back(s@, pat@, -1) is None);
            return None;
        }
        i -= 1;
    }
}

/// Whether `s` begins with `pat`.
pub fn starts_with(s: &str, pat: &str) -> (r: bool)
    ensures
        r == begins(s@, pat@),
{
    stands_at(&chars_of(s), &chars_of(pat), 0)
}

/// Whether `s` ends with `pat`.
pub fn ends_with(s: &str, pat: &str) -> (r: bool)
    ensures
        r == finishes(s@, pat@),
{
    let chars = chars_of(s);
    let pattern = chars_of(pat);
    pattern.len() <= chars.len() && stands_at(&chars, &pattern, chars.len() - pattern.len())
}

/// Whether `pat` stands somewhere in `s`.
pub fn contains(s: &str, pat: &str) -> (r: bool)
    ensures
        r == has(s@, pat@),
{
    find(s, pat).is_some()
}

/// What follows `pat` at the start of `s`.
pub open spec fn after_prefix(s: Seq<char>, pat: Seq<char>) -> Option<Seq<char>> {
    if begins(s, pat) {
        Some(s.subrange(pat.len() as int, s.len() as int))
    } else {
        None
    }
}

/// What precedes `pat` at the end of `s`.
pub open spec fn before_suffix(s: Seq<char>, pat: Seq<char>) -> Option<Seq<char>> {
    if finishes(s, pat) {
        Some(s.subrange(0, s.len() - pat.len()))
    } else {
        None
    }
}

/// The view of an optional text.
pub open spec fn opt_text(s: Option<String>) -> Option<Seq<char>> {
    match s {
        Some(text) => Some(text@),
        None => None,
    }
}

/// The view of an optional pair of texts.
pub open spec fn opt_pair(s: Option<(String, String)>) -> Option<(Seq<char>, Seq<char>)> {
    match s {
        Some(pair) => Some((pair.0@, pair.1@)),
        None => None,
    }
}

/// What follows `pat` at the start of `s`.
pub fn strip_prefix(s: &str, pat: &str) -> (r: Option<String>)
    ensures
        opt_text(r) == after_prefix(s@, pat@),
{
    let chars = chars_of(s);
    let pattern = chars_of(pat);
    if stands_at(&chars, &pattern, 0) {
        Some(string_of(&chars, pattern.len(), chars.len()))
    } else {
        None
    }
}

/// What precedes `pat` at the end of `s`.
pub fn strip_suffix(s: &str, pat: &str) -> (r: Option<String>)
    ensures
        opt_text(r) == before_suffix(s@, pat@),
{
    let chars = chars_of(s);
    let pattern = chars_of(pat);
    if pattern.len() <= chars.len() && stands_at(&chars, &pattern, chars.len() - pattern.len()) {
        Some(string_of(&chars, 0, chars.len() - pattern.len()))
    } else {
        None
    }
}

/// The parts of `s` before and after the first `pat`.
pub open spec fn parted(s: Seq<char>, pat: Seq<char>) -> Option<(Seq<char>, Seq<char>)> {
    match found(s, pat) {
        Some(i) => Some((s.subrange(0, i), s.subrange(i + pat.len(), s.len() as int))),
        None => None,
    }
}

/// The parts of `s` before and after the last `pat`.
pub open spec fn parted_last(s: Seq<char>, pat: Seq<char>) -> Option<(Seq<char>, Seq<char>)> {
    match found_last(s, pat) {
        Some(i) => Some((s.subrange(0, i), s.subrange(i + pat.len(), s.len() as int))),
        None => None,
    }
}

/// Splits `s` at the first `pat`.
pub fn split_once(s: &str, pat: &str) -> (r: Option<(String, String)>)
    ensures
        opt_pair(r) == parted(s@, pat@),
{
    let chars = chars_of(s);
    let pattern = chars_of(pat);
    proof {
        lemma_found_from(s@, pat@, 0);
    }
    let total: usize = chars.len();
    match find_from(&chars, &pattern, 0) {
        Some(i) => Some(
            (string_of(&chars, 0, i), string_of(&chars, i + pattern.len(), total)),
        ),
        None => None,
    }
}

/// Splits `s` at the last `pat`.
pub fn rsplit_once(s: &str, pat: &str) -> (r: Option<(String, String)>)
    ensures
        opt_pair(r) == parted_last(s@, pat@),
{
    let chars = chars_of(s);
    let pattern = chars_of(pat);
    proof {
        lemma_found_back(s@, pat@, s@.len() - pat@.len());
    }
    let total: usize = chars.len();
    match find_last(s, pat) {
        Some(i) => Some(
            (string_of(&chars, 0, i), string_of(&chars, i + pattern.len(), total)),
        ),
        None => None,
    }
}

/// The first `count` characters of `s`, or all of them if there are fewer.
pub open spec fn first_chars(s: Seq<char>, count: int) -> Seq<char> {
    if s.len() <= count {
        s
    } else {
        s.subrange(0, count)
    }
}

/// The first `count` characters of `s`, or all of them if there are fewer.
pub fn take_chars(s: &str, count: usize) -> (r: String)
    ensures
        r@ == first_chars(s@, count as int),
{
    let chars = chars_of(s);
    assert(chars@.subrange(0, chars@.len() as int) == chars@);
    if chars.len() <= count {
        string_of(&chars, 0, chars.len())
    } else {
        string_of(&chars, 0, count)
    }
}

/// An ASCII capital letter as its small letter; every other character as it is.
pub open spec fn ascii_lower(c: char) -> char {
    if 'A' <= c && c <= 'Z' {
        ((c as u8 + 32) as u8) as char
    } else {
        c
    }
}

/// `s` with its ASCII capital letters made small.
pub open spec fn ascii_lowered(s: Seq<char>) -> Seq<char> {
    s.map_values(|c: char| ascii_lower(c))
}

/// `s` with its ASCII capital letters made small.
pub fn to_ascii_lowercase(s: &str) -> (r: String)
    ensures
        r@ == ascii_lowered(s@),
{
    let chars = chars_of(s);
    let mut out = String::new();
    let mut i: usize = 0;
    while i < chars.len()
        invariant
            i <= chars@.len(),
            out@ =~= ascii_lowered(chars@.subrange(0, i as int)),
        decreases chars@.len() - i,
    {
        let c = chars[i];
        if 'A' <= c && c <= 'Z' {
            out.push(((c as u8) + 32) as char);
        } else {
            out.push(c);
        }
        assert(chars@.subrange(0, i + 1) =~= chars@.subrange(0, i as int).push(c));
        i += 1;
    }
    assert(chars@.subrange(0, i as int) =~= chars@);
    out
}

/// Whether `a` and `b` are the same text but for the case of ASCII letters.
pub fn eq_ignore_ascii_case(a: &str, b: &str) -> (r: bool)
    ensures
        r == (ascii_lowered(a@) == ascii_lowered(b@)),
{
    to_ascii_lowercase(a) == to_ascii_lowercase(b)
}

/// The digit `d` as a character.
pub open spec fn digit(d: nat) -> char {
    ((48 + d) as u8) as char
}

/// `n` written in decimal, without leading zeros.
pub open spec fn decimal(n: nat) -> Seq<char>
    decreases n,
{
    if n < 10 {
        seq![digit(n)]
    } else {
        decimal(n / 10).push(digit(n % 10))
    }
}

/// `n` written in decimal.
pub fn decimal_of(n: u64) -> (r: String)
    ensures
        r@ == decimal(n as nat),
    decreases n,
{
    let low: u8 = (n % 10) as u8;
    let ch = (48u8 + low) as char;
    let mut out = if n < 10 {
        String::new()
    } else {
        decimal_of(n / 10)
    };
    out.push(ch);
    assert(n < 10 ==> out@ =~= seq![digit(n as nat)]);
    out
}

/// `a` comes before `b` in the order of code points.
pub open spec fn text_before(a: Seq<char>, b: Seq<char>) -> bool
    decreases a.len(),
{
    if b.len() == 0 {
        false
    } else if a.len() == 0 {
        true
    } else if a[0] != b[0] {
        a[0] < b[0]
    } else {
        text_before(a.subrange(1, a.len() as int), b.subrange(1, b.len() as int))
    }
}

/// Whether `a` comes before `b` in the order of code points.
pub fn is_before(a: &str, b: &str) -> (r: bool)
    ensures
        r == text_before(a@, b@),
{
    let x = chars_of(a);
    let y = chars_of(b);
    let mut i: usize = 0;
    assert(x@.subrange(0, x@.len() as int) =~= x@ && y@.subrange(0, y@.len() as int) =~= y@);
    while i < x.len() && i < y.len()
        invariant
            x@ == a@,
            y@ == b@,
            i <= x@.len(),
            i <= y@.len(),
            text_before(x@, y@) == text_before(
                x@.subrange(i as int, x@.len() as int),
                y@.subrange(i as int, y@.len() as int),
            ),
        decreases x@.len() - i,
    {
        if x[i] != y[i] {
            return x[i] < y[i];
        }
        proof {
            let u = x@.subrange(i as int, x@.len() as int);
            let v = y@.subrange(i as int, y@.len() as int);
            assert(u.subrange(1, u.len() as int) =~= x@.subrange(i + 1, x@.len() as int));
            assert(v.subrange(1, v.len() as int) =~= y@.subrange(i + 1, y@.len() as int));
        }
        i += 1;
    }
    i == x.len() && i < y.len()
}

/// The order of code points is total: of two different texts one comes first.
pub proof fn law_text_order_total(a: Seq<char>, b: Seq<char>)
    ensures
        a != b ==> text_before(a, b) || text_before(b, a),
        !(text_before(a, b) && text_before(b, a)),
        !text_before(a, a),
    decreases a.len(),
{
    if a.len() > 0 && b.len() > 0 {
        let x = a.subrange(1, a.len() as int);
        let y = b.subrange(1, b.len() as int);
        law_text_order_total(x, y);
        law_text_order_total(x, x);
        if a != b && a[0] == b[0] {
            assert(a =~= seq![a[0]] + x);
            assert(b =~= seq![b[0]] + y);
        }
    } else if a.len() == 0 && b.len() == 0 {
        assert(a =~= b);
    }
    if a.len() > 0 {
        law_text_order_total(a.subrange(1, a.len() as int), a.subrange(1, a.len() as int));
    }
}

/// The order of code points is transitive.
pub proof fn law_text_order_transitive(a: Seq<char>, b: Seq<char>, c: Seq<char>)
    requires
        text_before(a, b),
        text_before(b, c),
    ensures
        text_before(a, c),
    decreases a.len(),
{
    if a.len() > 0 && a[0] == b[0] && b[0] == c[0] {
        law_text_order_transitive(
            a.subrange(1, a.len() as int),
            b.subrange(1, b.len() as int),
            c.subrange(1, c.len() as int),
        );
    }
}

/// A number in decimal is made of digits, and there is at least one.
pub proof fn law_decimal_is_digits(n: nat)
    ensures
        decimal(n).len() >= 1,
        n >= 10 ==> decimal(n).len() >= 2,
        forall|i: int|
            0 <= i < decimal(n).len() ==> '0' <= #[trigger] decimal(n)[i] && decimal(n)[i] <= '9',
    decreases n,
{
    if n >= 10 {
        law_decimal_is_digits(n / 10);
    }
}

/// Two numbers are written alike only where they are one.
pub proof fn law_decimal_tells_numbers_apart(a: nat, b: nat)
    requires
        decimal(a) == decimal(b),
    ensures
        a == b,
    decreases a,
{
    law_decimal_is_digits(a);
    law_decimal_is_digits(b);
    if a < 10 || b < 10 {
        assert(decimal(a).len() == decimal(b).len());
        assert(decimal(a)[0] == digit(a));
        assert(decimal(b)[0] == digit(b));
    } else {
        let x = decimal(a / 10);
        let y = decimal(b / 10);
        assert(x =~= decimal(a).drop_last());
        assert(y =~= decimal(b).drop_last());
        assert(decimal(a).last() == digit(a % 10));
        assert(decimal(b).last() == digit(b % 10));
        law_decimal_tells_numbers_apart(a / 10, b / 10);
    }
}

/// White space is what Unicode calls so: the tab and the other characters up
/// to the carriage return, the blank and its wider and narrower kin, and the
/// marks of lines. No letter, digit or sign of ASCII is any.
pub proof fn law_white_space(c: char)
    ensures
        white_space(c) <==> c == '\t' || c == '\n' || c == '\u{b}' || c == '\u{c}' || c == '\r' || c
            == ' ' || c == '\u{85}' || c == '\u{a0}' || c == '\u{1680}' || ('\u{2000}' <= c && c
            <= '\u{200a}') || c == '\u{2028}' || c == '\u{2029}' || c == '\u{202f}' || c
            == '\u{205f}' || c == '\u{3000}',
        '!' <= c && c <= '~' ==> !white_space(c),
{
}

/// Trimming takes white space off both ends, and nothing else: what is left
/// stands in the text between white space, and neither begins nor ends with
/// any.
pub proof fn law_trimmed(s: Seq<char>)
    ensures
        exists|i: int, j: int|
            0 <= i <= j <= s.len() && trimmed(s) == #[trigger] s.subrange(i, j) && (forall|k: int|
                (0 <= k < i || j <= k < s.len()) ==> white_space(#[trigger] s[k])),
        trimmed(s).len() > 0 ==> !white_space(trimmed(s)[0]) && !white_space(trimmed(s).last()),
{
    let (i, rest) = lemma_start_of_text(s);
    let j = lemma_end_of_text(rest);
    assert(trimmed(s) =~= s.subrange(i, i + j));
    assert forall|k: int| (0 <= k < i || i + j <= k < s.len()) implies white_space(
        #[trigger] s[k],
    ) by {
        if k >= i + j {
            assert(rest[k - i] == s[k]);
        }
    }
}

/// The white space at the beginning of a text ends somewhere.
proof fn lemma_start_of_text(s: Seq<char>) -> (r: (int, Seq<char>))
    ensures
        0 <= r.0 <= s.len(),
        r.1 == s.subrange(r.0, s.len() as int),
        r.1 == trimmed_start(s),
        forall|k: int| 0 <= k < r.0 ==> white_space(#[trigger] s[k]),
        r.1.len() > 0 ==> !white_space(r.1[0]),
    decreases s.len(),
{
    if s.len() > 0 && white_space(s[0]) {
        let rest = s.subrange(1, s.len() as int);
        let (i, end) = lemma_start_of_text(rest);
        assert(end =~= s.subrange(i + 1, s.len() as int));
        assert forall|k: int| 0 <= k < i + 1 implies white_space(#[trigger] s[k]) by {
            if k > 0 {
                assert(rest[k - 1] == s[k]);
            }
        }
        (i + 1, end)
    } else {
        assert(s =~= s.subrange(0, s.len() as int));
        (0, s)
    }
}

/// The white space at the end of a text begins somewhere.
proof fn lemma_end_of_text(s: Seq<char>) -> (r: int)
    ensures
        0 <= r <= s.len(),
        trimmed_end(s) == s.subrange(0, r),
        forall|k: int| r <= k < s.len() ==> white_space(#[trigger] s[k]),
        r > 0 ==> !white_space(s[r - 1]),
        trimmed_end(s).len() > 0 && s.len() > 0 ==> trimmed_end(s)[0] == s[0],
    decreases s.len(),
{
    if s.len() > 0 && white_space(s[s.len() - 1]) {
        let rest = s.subrange(0, s.len() - 1);
        let j = lemma_end_of_text(rest);
        assert(rest.subrange(0, j) =~= s.subrange(0, j));
        assert forall|k: int| j <= k < s.len() implies white_space(#[trigger] s[k]) by {
            if k < s.len() - 1 {
                assert(rest[k] == s[k]);
            }
        }
        j
    } else {
        assert(s =~= s.subrange(0, s.len() as int));
        s.len() as int
    }
}

/// A text is blank where, and only where, all of it is white space.
pub proof fn law_blank(s: Seq<char>)
    ensures
        blank(s) <==> forall|k: int| 0 <= k < s.len() ==> white_space(#[trigger] s[k]),
{
    law_trimmed(s);
    let (i, j) = choose|i: int, j: int|
        0 <= i <= j <= s.len() && trimmed(s) == #[trigger] s.subrange(i, j) && (forall|k: int|
            (0 <= k < i || j <= k < s.len()) ==> white_space(#[trigger] s[k]));
    if blank(s) {
        assert(i == j);
    } else {
        assert(trimmed(s)[0] == s[i]);
    }
}

/// A text is found at its first place, from the front, and at its last place,
/// from behind; where it stands nowhere, it is not found.
pub proof fn law_found(s: Seq<char>, pat: Seq<char>)
    ensures
        match found(s, pat) {
            Some(i) => occurs_at(s, pat, i) && forall|j: int| occurs_at(s, pat, j) ==> i <= j,
            None => forall|j: int| !occurs_at(s, pat, j),
        },
        match found_last(s, pat) {
            Some(i) => occurs_at(s, pat, i) && forall|j: int| occurs_at(s, pat, j) ==> j <= i,
            None => forall|j: int| !occurs_at(s, pat, j),
        },
        has(s, pat) <==> exists|i: int|
            0 <= i <= s.len() - pat.len() && #[trigger] s.subrange(i, i + pat.len()) == pat,
{
    lemma_found_from(s, pat, 0);
    lemma_found_back(s, pat, s.len() - pat.len());
    if has(s, pat) {
        let i = found(s, pat)->0;
        assert(s.subrange(i, i + pat.len()) == pat);
    }
    if exists|i: int|
        0 <= i <= s.len() - pat.len() && #[trigger] s.subrange(i, i + pat.len()) == pat {
        let i = choose|i: int|
            0 <= i <= s.len() - pat.len() && #[trigger] s.subrange(i, i + pat.len()) == pat;
        assert(occurs_at(s, pat, i));
    }
}

/// Splitting loses nothing: the two parts with the mark between them are the
/// text. The mark stands in no place before the first split, and in none after
/// the last; without the mark there is no split.
pub proof fn law_split(s: Seq<char>, pat: Seq<char>)
    ensures
        match parted(s, pat) {
            Some(parts) => parts.0 + pat + parts.1 == s && forall|j: int|
                occurs_at(s, pat, j) ==> parts.0.len() <= j,
            None => forall|j: int| !occurs_at(s, pat, j),
        },
        match parted_last(s, pat) {
            Some(parts) => parts.0 + pat + parts.1 == s && forall|j: int|
                occurs_at(s, pat, j) ==> j <= parts.0.len(),
            None => forall|j: int| !occurs_at(s, pat, j),
        },
{
    law_found(s, pat);
    if let Some(i) = found(s, pat) {
        assert(s.subrange(0, i) + pat + s.subrange(i + pat.len(), s.len() as int) =~= s);
    }
    if let Some(i) = found_last(s, pat) {
        assert(s.subrange(0, i) + pat + s.subrange(i + pat.len(), s.len() as int) =~= s);
    }
}

/// Taking a beginning or an end off is undone by putting it back on.
pub proof fn law_strip(s: Seq<char>, pat: Seq<char>)
    ensures
        match after_prefix(s, pat) {
            Some(rest) => pat + rest == s,
            None => !begins(s, pat),
        },
        match before_suffix(s, pat) {
            Some(rest) => rest + pat == s,
            None => !finishes(s, pat),
        },
        begins(pat + s, pat),
        after_prefix(pat + s, pat) == Some(s),
        finishes(s + pat, pat),
        before_suffix(s + pat, pat) == Some(s),
{
    if let Some(rest) = after_prefix(s, pat) {
        assert(pat + rest =~= s);
    }
    if let Some(rest) = before_suffix(s, pat) {
        assert(rest + pat =~= s);
    }
    assert((pat + s).subrange(0, pat.len() as int) =~= pat);
    assert((pat + s).subrange(pat.len() as int, (pat + s).len() as int) =~= s);
    assert((s + pat).subrange(s.len() as int, (s + pat).len() as int) =~= pat);
    assert((s + pat).subrange(0, s.len() as int) =~= s);
}

/// Making letters small changes the capital letters of ASCII alone, each into
/// the letter thirty-two places on.
pub proof fn law_ascii_lowered(s: Seq<char>, i: int)
    requires
        0 <= i < s.len(),
    ensures
        ascii_lowered(s).len() == s.len(),
        'A' <= s[i] && s[i] <= 'Z' ==> ascii_lowered(s)[i] as u32 == s[i] as u32 + 32,
        !('A' <= s[i] && s[i] <= 'Z') ==> ascii_lowered(s)[i] == s[i],
{
}

/// A number in decimal stands for that number: each digit counts ten times what
/// the next one does, and only zero begins with a zero.
pub proof fn law_decimal_is_the_number(n: nat)
    ensures
        n < 10 ==> decimal(n).len() == 1 && decimal(n)[0] as u32 == 48 + n,
        n >= 10 ==> decimal(n).drop_last() == decimal(n / 10) && decimal(n).last() as u32 == 48 + n
            % 10,
        n > 0 ==> decimal(n)[0] != '0',
    decreases n,
{
    if n >= 10 {
        law_decimal_is_the_number(n / 10);
        assert(decimal(n).drop_last() =~= decimal(n / 10));
    }
}

/// One text comes before another where, behind all that they share at the
/// beginning, its character comes first or it is at its end.
pub proof fn law_text_order(a: Seq<char>, b: Seq<char>, k: int)
    requires
        0 <= k <= a.len(),
        k <= b.len(),
        forall|i: int| 0 <= i < k ==> #[trigger] a[i] == b[i],
        k < a.len() && k < b.len() ==> a[k] != b[k],
    ensures
        text_before(a, b) <==> k < b.len() && (k == a.len() || a[k] < b[k]),
    decreases k,
{
    if k > 0 {
        let x = a.subrange(1, a.len() as int);
        let y = b.subrange(1, b.len() as int);
        assert(a[0] == b[0]);
        assert forall|i: int| 0 <= i < k - 1 implies #[trigger] x[i] == y[i] by {
            assert(a[i + 1] == b[i + 1]);
        }
        law_text_order(x, y, k - 1);
    }
}

} // verus!
