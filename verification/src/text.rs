//! Text primitives over Unicode scalar values.
//!
//! The mathematical model of a string is the sequence of its characters. The
//! spec functions below say what trimming, searching, joining and rendering
//! mean on such sequences; the executable functions meet them.

use vstd::prelude::*;

verus! {

/// `String::push` appends one character.
pub assume_specification[ String::push ](s: &mut String, c: char)
    ensures
        final(s)@ == old(s)@.push(c),
;

/// The code point of a character fits in a `u32`.
pub proof fn lemma_char_code(c: char)
    ensures
        c as u32 as int == c as int,
{
}

/// The characters of a string, in order.
pub fn chars_of(s: &str) -> (r: Vec<char>)
    ensures
        r@ == s@,
{
    let mut out: Vec<char> = Vec::new();
    for c in it: s.chars()
        invariant
            out@ == it.seq().subrange(0, it.index() as int),
            it.seq() == s@,
    {
        out.push(c);
    }
    assert(s@.subrange(0, s@.len() as int) =~= s@);
    out
}

/// The string made of `v[from..to]`.
pub fn string_of(v: &Vec<char>, from: usize, to: usize) -> (r: String)
    requires
        from <= to <= v@.len(),
    ensures
        r@ == v@.subrange(from as int, to as int),
{
    let mut out = String::new();
    let mut i: usize = from;
    while i < to
        invariant
            from <= i <= to <= v@.len(),
            out@ == v@.subrange(from as int, i as int),
        decreases to - i,
    {
        out.push(v[i]);
        i = i + 1;
        assert(v@.subrange(from as int, i as int) =~= v@.subrange(from as int, i - 1).push(v@[i - 1]));
    }
    out
}

/// Whether two strings hold the same characters.
pub fn text_eq(a: &str, b: &str) -> (r: bool)
    ensures
        r == (a@ == b@),
{
    a.to_owned() == b.to_owned()
}


// ---------------------------------------------------------------------------
// White space and trimming
// ---------------------------------------------------------------------------

/// The characters with the Unicode `White_Space` property.
pub open spec fn is_white(c: char) -> bool {
    let n = c as u32;
    ||| 0x9 <= n <= 0xd
    ||| n == 0x20
    ||| n == 0x85
    ||| n == 0xa0
    ||| n == 0x1680
    ||| 0x2000 <= n <= 0x200a
    ||| n == 0x2028
    ||| n == 0x2029
    ||| n == 0x202f
    ||| n == 0x205f
    ||| n == 0x3000
}

/// Tests for the Unicode `White_Space` property.
pub fn is_white_exec(c: char) -> (r: bool)
    ensures
        r == is_white(c),
{
    let n: u32 = c as u32;
    (0x9 <= n && n <= 0xd) || n == 0x20 || n == 0x85 || n == 0xa0 || n == 0x1680 || (0x2000 <= n
        && n <= 0x200a) || n == 0x2028 || n == 0x2029 || n == 0x202f || n == 0x205f || n == 0x3000
}

/// `s` without its leading white space.
pub open spec fn trim_start(s: Seq<char>) -> Seq<char>
    decreases s.len(),
{
    if s.len() > 0 && is_white(s[0]) {
        trim_start(s.subrange(1, s.len() as int))
    } else {
        s
    }
}

/// `s` without its trailing white space.
pub open spec fn trim_end(s: Seq<char>) -> Seq<char>
    decreases s.len(),
{
    if s.len() > 0 && is_white(s.last()) {
        trim_end(s.drop_last())
    } else {
        s
    }
}

/// `s` without leading and trailing white space.
pub open spec fn trim(s: Seq<char>) -> Seq<char> {
    trim_end(trim_start(s))
}

/// Every character is white space.
pub open spec fn all_white(s: Seq<char>) -> bool {
    forall|i: int| 0 <= i < s.len() ==> is_white(#[trigger] s[i])
}

/// `s` neither begins nor ends with white space.
pub open spec fn is_trimmed(s: Seq<char>) -> bool {
    s.len() > 0 ==> !is_white(s[0]) && !is_white(s.last())
}

proof fn lemma_trim_start_padded(left: Seq<char>, s: Seq<char>)
    requires
        all_white(left),
        s.len() > 0 ==> !is_white(s[0]),
    ensures
        trim_start(left + s) == s,
    decreases left.len(),
{
    if left.len() == 0 {
        assert(left + s =~= s);
    } else {
        let rest = left.subrange(1, left.len() as int);
        assert forall|i: int| 0 <= i < rest.len() implies is_white(#[trigger] rest[i]) by {
            assert(left[i + 1] == rest[i]);
        }
        lemma_trim_start_padded(rest, s);
        assert((left + s)[0] == left[0]);
        assert((left + s).subrange(1, (left + s).len() as int) =~= rest + s);
    }
}

proof fn lemma_trim_end_padded(s: Seq<char>, right: Seq<char>)
    requires
        all_white(right),
        s.len() > 0 ==> !is_white(s.last()),
    ensures
        trim_end(s + right) == s,
    decreases right.len(),
{
    if right.len() == 0 {
        assert(s + right =~= s);
    } else {
        let rest = right.drop_last();
        assert forall|i: int| 0 <= i < rest.len() implies is_white(#[trigger] rest[i]) by {
            assert(right[i] == rest[i]);
        }
        lemma_trim_end_padded(s, rest);
        assert((s + right).last() == right[right.len() - 1]);
        assert((s + right).drop_last() =~= s + rest);
    }
}

/// Trimming a text with white space around it gives the text.
pub proof fn lemma_trim_padded(left: Seq<char>, s: Seq<char>, right: Seq<char>)
    requires
        all_white(left),
        all_white(right),
        is_trimmed(s),
    ensures
        trim(left + s + right) == s,
{
    if s.len() == 0 {
        let both = left + right;
        assert(left + s + right =~= both + Seq::<char>::empty());
        assert forall|i: int| 0 <= i < both.len() implies is_white(#[trigger] both[i]) by {
            if i >= left.len() {
                assert(both[i] == right[i - left.len()]);
            }
        }
        lemma_trim_start_padded(both, Seq::empty());
        assert(s =~= Seq::empty());
    } else {
        assert(left + s + right =~= left + (s + right));
        lemma_trim_start_padded(left, s + right);
        lemma_trim_end_padded(s, right);
    }
}

/// `s` without its trailing characters equal to `c`.
pub open spec fn trim_end_char(s: Seq<char>, c: char) -> Seq<char>
    decreases s.len(),
{
    if s.len() > 0 && s.last() == c {
        trim_end_char(s.drop_last(), c)
    } else {
        s
    }
}

/// Number of leading characters that `trim_start` removes.
pub fn white_prefix(v: &Vec<char>) -> (n: usize)
    ensures
        n <= v@.len(),
        trim_start(v@) == v@.subrange(n as int, v@.len() as int),
{
    let mut i: usize = 0;
    assert(v@.subrange(0, v@.len() as int) =~= v@);
    while i < v.len() && is_white_exec(v[i])
        invariant
            i <= v@.len(),
            trim_start(v@) == trim_start(v@.subrange(i as int, v@.len() as int)),
        decreases v@.len() - i,
    {
        let ghost rest = v@.subrange(i as int, v@.len() as int);
        assert(rest[0] == v@[i as int]);
        assert(rest.subrange(1, rest.len() as int) =~= v@.subrange(i + 1, v@.len() as int));
        i = i + 1;
    }
    i
}

/// End of `v[from..]` once its trailing white space is removed.
pub fn white_suffix(v: &Vec<char>, from: usize) -> (e: usize)
    requires
        from <= v@.len(),
    ensures
        from <= e <= v@.len(),
        trim_end(v@.subrange(from as int, v@.len() as int)) == v@.subrange(from as int, e as int),
{
    let mut e: usize = v.len();
    while e > from && is_white_exec(v[e - 1])
        invariant
            from <= e <= v@.len(),
            trim_end(v@.subrange(from as int, v@.len() as int)) == trim_end(
                v@.subrange(from as int, e as int),
            ),
        decreases e,
    {
        let ghost cur = v@.subrange(from as int, e as int);
        assert(cur.last() == v@[e - 1]);
        assert(cur.drop_last() =~= v@.subrange(from as int, e - 1));
        e = e - 1;
    }
    e
}

/// `str::trim` as an owned string.
pub fn trimmed(s: &str) -> (r: String)
    ensures
        r@ == trim(s@),
{
    let v = chars_of(s);
    let a = white_prefix(&v);
    let e = white_suffix(&v, a);
    string_of(&v, a, e)
}

/// Whether nothing but white space is in `s`.
pub fn is_blank(s: &str) -> (r: bool)
    ensures
        r == (trim(s@).len() == 0),
{
    let v = chars_of(s);
    let a = white_prefix(&v);
    let e = white_suffix(&v, a);
    a == e
}

/// `s` without its trailing occurrences of `c`.
pub fn trimmed_end_char(s: &str, c: char) -> (r: String)
    ensures
        r@ == trim_end_char(s@, c),
{
    let v = chars_of(s);
    let mut e: usize = v.len();
    assert(v@.subrange(0, v@.len() as int) =~= v@);
    while e > 0 && v[e - 1] == c
        invariant
            e <= v@.len(),
            trim_end_char(v@, c) == trim_end_char(v@.subrange(0, e as int), c),
        decreases e,
    {
        let ghost cur = v@.subrange(0, e as int);
        assert(cur.last() == v@[e - 1]);
        assert(cur.drop_last() =~= v@.subrange(0, e - 1));
        e = e - 1;
    }
    string_of(&v, 0, e)
}

// ---------------------------------------------------------------------------
// Searching
// ---------------------------------------------------------------------------

/// `p` stands in `s` at position `i`.
pub open spec fn occurs_at(s: Seq<char>, p: Seq<char>, i: int) -> bool {
    0 <= i && i + p.len() <= s.len() && s.subrange(i, i + p.len()) == p
}

/// `p` stands somewhere in `s`.
pub open spec fn has_text(s: Seq<char>, p: Seq<char>) -> bool {
    exists|i: int| #[trigger] occurs_at(s, p, i)
}

/// `s` begins with `p`.
pub open spec fn begins_with(s: Seq<char>, p: Seq<char>) -> bool {
    occurs_at(s, p, 0)
}

/// `s` ends with `p`.
pub open spec fn finishes_with(s: Seq<char>, p: Seq<char>) -> bool {
    occurs_at(s, p, s.len() - p.len())
}

/// The first position at or after `from` at which `p` stands in `s`.
pub open spec fn find_text(s: Seq<char>, p: Seq<char>, from: int) -> Option<int>
    decreases s.len() - from + 1,
{
    if from < 0 || from + p.len() > s.len() {
        None
    } else if occurs_at(s, p, from) {
        Some(from)
    } else {
        find_text(s, p, from + 1)
    }
}

/// `find_text` finds the first occurrence, and nothing only where there is none.
pub proof fn lemma_find_text(s: Seq<char>, p: Seq<char>, from: int)
    requires
        0 <= from,
    ensures
        match find_text(s, p, from) {
            Some(i) => from <= i && occurs_at(s, p, i) && forall|j: int|
                from <= j < i ==> !occurs_at(s, p, j),
            None => forall|j: int| from <= j ==> !occurs_at(s, p, j),
        },
    decreases s.len() - from + 1,
{
    if from + p.len() > s.len() {
    } else if occurs_at(s, p, from) {
    } else {
        lemma_find_text(s, p, from + 1);
    }
}

/// Whether `p` stands in `v` at `i`.
pub fn occurs_at_exec(v: &Vec<char>, p: &Vec<char>, i: usize) -> (r: bool)
    requires
        i + p@.len() <= v@.len(),
    ensures
        r == occurs_at(v@, p@, i as int),
{
    let mut k: usize = 0;
    while k < p.len()
        invariant
            k <= p@.len(),
            i + p@.len() <= v.len(),
            forall|j: int| 0 <= j < k ==> v@[i + j] == p@[j],
        decreases p@.len() - k,
    {
        if v[i + k] != p[k] {
            assert(v@.subrange(i as int, i + p@.len())[k as int] != p@[k as int]);
            return false;
        }
        k = k + 1;
    }
    assert(v@.subrange(i as int, i + p@.len()) =~= p@);
    true
}

/// The first position at or after `from` at which `p` stands in `v`.
pub fn find_in(v: &Vec<char>, p: &Vec<char>, from: usize) -> (r: Option<usize>)
    ensures
        match r {
            Some(i) => find_text(v@, p@, from as int) == Some(i as int) && from <= i && i
                + p@.len() <= v.len(),
            None => find_text(v@, p@, from as int) is None,
        },
{
    if p.len() > v.len() {
        return None;
    }
    let last: usize = v.len() - p.len();
    let mut i: usize = from;
    while i <= last
        invariant
            last + p@.len() == v.len(),
            from <= i,
            find_text(v@, p@, from as int) == find_text(v@, p@, i as int),
        decreases last + 1 - i,
    {
        if occurs_at_exec(v, p, i) {
            return Some(i);
        }
        if i == last {
            assert(find_text(v@, p@, i + 1) is None);
            return None;
        }
        i = i + 1;
    }
    None
}

/// `str::contains` on a string pattern.
pub fn contains(s: &str, p: &str) -> (r: bool)
    ensures
        r == has_text(s@, p@),
{
    let v = chars_of(s);
    let q = chars_of(p);
    proof {
        lemma_find_text(v@, q@, 0);
    }
    let r = find_in(&v, &q, 0);
    proof {
        if r is None {
            assert forall|i: int| !occurs_at(s@, p@, i) by {
                if 0 <= i {
                }
            }
        }
    }
    r.is_some()
}

/// `str::starts_with` on a string pattern.
pub fn starts_with(s: &str, p: &str) -> (r: bool)
    ensures
        r == begins_with(s@, p@),
{
    let v = chars_of(s);
    let q = chars_of(p);
    if q.len() > v.len() {
        return false;
    }
    occurs_at_exec(&v, &q, 0)
}

/// `str::ends_with` on a string pattern.
pub fn ends_with(s: &str, p: &str) -> (r: bool)
    ensures
        r == finishes_with(s@, p@),
{
    let v = chars_of(s);
    let q = chars_of(p);
    if q.len() > v.len() {
        return false;
    }
    occurs_at_exec(&v, &q, v.len() - q.len())
}

/// The part of `s` behind the prefix `p`.
pub fn strip_prefix(s: &str, p: &str) -> (r: Option<String>)
    ensures
        match r {
            Some(t) => begins_with(s@, p@) && t@ == s@.subrange(p@.len() as int, s@.len() as int),
            None => !begins_with(s@, p@),
        },
{
    let v = chars_of(s);
    let q = chars_of(p);
    if q.len() > v.len() {
        return None;
    }
    if occurs_at_exec(&v, &q, 0) {
        Some(string_of(&v, q.len(), v.len()))
    } else {
        None
    }
}

/// The part of `s` before the suffix `p`.
pub fn strip_suffix(s: &str, p: &str) -> (r: Option<String>)
    ensures
        match r {
            Some(t) => finishes_with(s@, p@) && t@ == s@.subrange(0, s@.len() - p@.len()),
            None => !finishes_with(s@, p@),
        },
{
    let v = chars_of(s);
    let q = chars_of(p);
    if q.len() > v.len() {
        return None;
    }
    if occurs_at_exec(&v, &q, v.len() - q.len()) {
        Some(string_of(&v, 0, v.len() - q.len()))
    } else {
        None
    }
}

/// `s` with every occurrence of the non-empty `from`, taken from left to
/// right and without overlap, replaced by `to`.
pub open spec fn replace_text(s: Seq<char>, from: Seq<char>, to: Seq<char>) -> Seq<char>
    decreases s.len(),
{
    if from.len() == 0 {
        s
    } else {
        match find_text(s, from, 0) {
            None => s,
            Some(i) => {
                proof {
                    lemma_find_text(s, from, 0);
                }
                s.subrange(0, i) + to + replace_text(
                    s.subrange(i + from.len(), s.len() as int),
                    from,
                    to,
                )
            },
        }
    }
}

/// `s` with the occurrences of the non-empty `from` replaced by `to`.
pub fn replaced(s: &str, from: &str, to: &str) -> (r: String)
    requires
        from@.len() > 0,
    ensures
        r@ == replace_text(s@, from@, to@),
{
    let v = chars_of(s);
    let q = chars_of(from);
    let mut out = String::new();
    let mut i: usize = 0;
    assert(v@.subrange(0, v@.len() as int) =~= v@);
    loop
        invariant_except_break
            out@ + replace_text(v@.subrange(i as int, v@.len() as int), q@, to@) == replace_text(
                v@,
                q@,
                to@,
            ),
        invariant
            q@ == from@,
            q@.len() > 0,
            i <= v@.len(),
        ensures
            out@ == replace_text(v@, q@, to@),
        decreases v@.len() - i,
    {
        let ghost rest = v@.subrange(i as int, v@.len() as int);
        proof {
            lemma_find_text(rest, q@, 0);
            lemma_find_text_shift(v@, q@, i as int);
        }
        match find_in(&v, &q, i) {
            None => {
                out.append(string_of(&v, i, v.len()).as_str());
                break ;
            },
            Some(j) => {
                let ghost before = out@;
                out.append(string_of(&v, i, j).as_str());
                out.append(to);
                proof {
                    let k = j - i;
                    assert(rest.subrange(0, k) =~= v@.subrange(i as int, j as int));
                    assert(rest.subrange(k + q@.len(), rest.len() as int) =~= v@.subrange(
                        j + q@.len(),
                        v@.len() as int,
                    ));
                    let tail = replace_text(v@.subrange(j + q@.len(), v@.len() as int), q@, to@);
                    assert(out@ + tail =~= before + (v@.subrange(i as int, j as int) + to@ + tail));
                }
                i = j + q.len();
            },
        }
    }
    out
}

/// Searching in a suffix is searching in the whole from where the suffix begins.
pub proof fn lemma_find_text_shift(s: Seq<char>, p: Seq<char>, from: int)
    requires
        0 <= from <= s.len(),
    ensures
        find_text(s, p, from) == (match find_text(s.subrange(from, s.len() as int), p, 0) {
            Some(k) => Some(k + from),
            None => None::<int>,
        }),
{
    let rest = s.subrange(from, s.len() as int);
    lemma_find_text(s, p, from);
    lemma_find_text(rest, p, 0);
    assert forall|i: int| 0 <= i implies occurs_at(rest, p, i) == occurs_at(s, p, i + from) by {
        if i + p.len() <= rest.len() {
            assert(rest.subrange(i, i + p.len()) =~= s.subrange(i + from, i + from + p.len()));
        }
    }
    match find_text(rest, p, 0) {
        Some(k) => {
            assert(occurs_at(s, p, k + from));
            match find_text(s, p, from) {
                Some(i) => {
                    assert(occurs_at(rest, p, i - from));
                },
                None => {},
            }
        },
        None => {
            match find_text(s, p, from) {
                Some(i) => {
                    assert(occurs_at(rest, p, i - from));
                },
                None => {},
            }
        },
    }
}

// ---------------------------------------------------------------------------
// Joining
// ---------------------------------------------------------------------------

/// `parts` with `sep` between neighbours.
pub open spec fn join(parts: Seq<Seq<char>>, sep: Seq<char>) -> Seq<char>
    decreases parts.len(),
{
    if parts.len() == 0 {
        Seq::empty()
    } else if parts.len() == 1 {
        parts[0]
    } else {
        join(parts.drop_last(), sep) + sep + parts.last()
    }
}

/// `[String]::join`.
pub fn joined(parts: &Vec<String>, sep: &str) -> (r: String)
    ensures
        r@ == join(parts.deep_view(), sep@),
{
    let mut out = String::new();
    let mut i: usize = 0;
    let ghost views = parts.deep_view();
    while i < parts.len()
        invariant
            views == parts.deep_view(),
            i <= parts@.len(),
            out@ == join(views.subrange(0, i as int), sep@),
        decreases parts@.len() - i,
    {
        if i > 0 {
            out.append(sep);
        }
        out.append(parts[i].as_str());
        i = i + 1;
        proof {
            let now = views.subrange(0, i as int);
            assert(now.drop_last() =~= views.subrange(0, i - 1));
            assert(now.last() == parts@[i - 1]@);
            assert(out@ =~= join(now, sep@));
        }
    }
    assert(views.subrange(0, i as int) =~= views);
    out
}

// ---------------------------------------------------------------------------
// Decimal numbers
// ---------------------------------------------------------------------------

/// The decimal digit of value `d`.
pub open spec fn digit(d: nat) -> char {
    (0x30 + d) as char
}

/// The decimal rendering of `n`, without leading zeros.
pub open spec fn decimal(n: nat) -> Seq<char>
    decreases n,
{
    if n < 10 {
        seq![digit(n)]
    } else {
        decimal(n / 10).push(digit(n % 10))
    }
}

/// `s` is a decimal digit.
pub open spec fn is_digit(c: char) -> bool {
    0x30 <= c as u32 <= 0x39
}

/// The value of a run of decimal digits.
pub open spec fn digits_value(s: Seq<char>) -> nat
    decreases s.len(),
{
    if s.len() == 0 {
        0
    } else {
        digits_value(s.drop_last()) * 10 + (s.last() as u32 - 0x30) as nat
    }
}

/// Every character of `s` is a decimal digit.
pub open spec fn all_digits(s: Seq<char>) -> bool {
    forall|i: int| 0 <= i < s.len() ==> is_digit(#[trigger] s[i])
}

fn digit_char(d: u64) -> (c: char)
    requires
        d < 10,
    ensures
        c == digit(d as nat),
{
    let b: u8 = 0x30u8 + d as u8;
    b as char
}

/// Reading back what `decimal` wrote gives the number.
pub proof fn lemma_decimal_value(n: nat)
    ensures
        all_digits(decimal(n)),
        digits_value(decimal(n)) == n,
        decimal(n).len() > 0,
    decreases n,
{
    if n < 10 {
        assert(decimal(n).drop_last() =~= Seq::<char>::empty());
        assert(decimal(n).last() == digit(n));
        assert(digits_value(Seq::<char>::empty()) == 0);
    } else {
        lemma_decimal_value(n / 10);
        assert(decimal(n).drop_last() =~= decimal(n / 10));
        assert(decimal(n).last() == digit(n % 10));
    }
}

/// The decimal rendering of a number.
pub fn decimal_string(n: u64) -> (r: String)
    ensures
        r@ == decimal(n as nat),
    decreases n,
{
    if n < 10 {
        let mut s = String::new();
        s.push(digit_char(n));
        assert(s@ =~= decimal(n as nat));
        s
    } else {
        let mut s = decimal_string(n / 10);
        s.push(digit_char(n % 10));
        s
    }
}

/// The number that the characters of `s` write, where they write one: an
/// optional plus sign and then at least one digit, of a value that fits.
pub open spec fn parse_u64(s: Seq<char>) -> Option<u64> {
    let d = if s.len() > 0 && s[0] == '+' {
        s.subrange(1, s.len() as int)
    } else {
        s
    };
    if d.len() > 0 && all_digits(d) && digits_value(d) <= u64::MAX {
        Some(digits_value(d) as u64)
    } else {
        None
    }
}

proof fn lemma_digits_prefix(s: Seq<char>, i: int)
    requires
        0 <= i <= s.len(),
        all_digits(s),
    ensures
        digits_value(s.subrange(0, i)) <= digits_value(s),
    decreases s.len(),
{
    if i == s.len() {
        assert(s.subrange(0, i) =~= s);
    } else {
        let d = s.drop_last();
        assert forall|k: int| 0 <= k < d.len() implies is_digit(#[trigger] d[k]) by {
            assert(is_digit(s[k]));
        }
        lemma_digits_prefix(d, i);
        assert(d.subrange(0, i) =~= s.subrange(0, i));
        assert(is_digit(s.last()));
    }
}

/// `str::parse::<u64>`.
pub fn parsed_u64(s: &str) -> (r: Option<u64>)
    ensures
        r == parse_u64(s@),
{
    let v = chars_of(s);
    let from: usize = if v.len() > 0 && v[0] == '+' {
        1
    } else {
        0
    };
    let ghost d = v@.subrange(from as int, v@.len() as int);
    assert(from == 0 ==> d =~= s@);
    if v.len() == from {
        return None;
    }
    let mut acc: u64 = 0;
    let mut i: usize = from;
    while i < v.len()
        invariant
            from <= i <= v@.len(),
            v@ == s@,
            d == v@.subrange(from as int, v@.len() as int),
            d.len() > 0,
            parse_u64(s@) == (if all_digits(d) && digits_value(d) <= u64::MAX {
                Some(digits_value(d) as u64)
            } else {
                None
            }),
            forall|k: int| 0 <= k < i - from ==> is_digit(#[trigger] d[k]),
            acc == digits_value(d.subrange(0, i - from)),
        decreases v@.len() - i,
    {
        let n: u32 = v[i] as u32;
        let ghost next = d.subrange(0, i - from + 1);
        proof {
            assert(next.drop_last() =~= d.subrange(0, i - from));
            assert(next.last() == v@[i as int]);
            assert(d[i - from] == v@[i as int]);
        }
        if n < 0x30 || n > 0x39 {
            assert(!is_digit(d[i - from]));
            return None;
        }
        let k: u64 = (n - 0x30) as u64;
        if acc > (u64::MAX - k) / 10 {
            proof {
                if all_digits(d) {
                    lemma_digits_prefix(d, i - from + 1);
                }
            }
            return None;
        }
        acc = acc * 10 + k;
        i = i + 1;
    }
    assert(d.subrange(0, i - from) =~= d);
    Some(acc)
}

/// `s` padded on the left with zeros to `width` characters.
pub open spec fn zero_padded(s: Seq<char>, width: nat) -> Seq<char> {
    if s.len() >= width {
        s
    } else {
        Seq::new((width - s.len()) as nat, |i: int| '0') + s
    }
}

proof fn lemma_leading_zeros_value(s: Seq<char>, k: nat)
    requires
        all_digits(s),
    ensures
        all_digits(Seq::new(k, |i: int| '0') + s),
        digits_value(Seq::new(k, |i: int| '0') + s) == digits_value(s),
    decreases s.len() + k,
{
    let z = Seq::new(k, |i: int| '0');
    let t = z + s;
    assert forall|i: int| 0 <= i < t.len() implies is_digit(#[trigger] t[i]) by {
        if i >= k {
            assert(t[i] == s[i - k]);
        }
    }
    if s.len() > 0 {
        let d = s.drop_last();
        assert forall|i: int| 0 <= i < d.len() implies is_digit(#[trigger] d[i]) by {
            assert(is_digit(s[i]));
        }
        lemma_leading_zeros_value(d, k);
        assert(t.drop_last() =~= z + d);
        assert(t.last() == s.last());
    } else if k > 0 {
        let z1 = Seq::new((k - 1) as nat, |i: int| '0');
        lemma_leading_zeros_value(s, (k - 1) as nat);
        assert(t.drop_last() =~= z1 + s);
        assert(t.last() == '0');
    } else {
        assert(t =~= s);
    }
}

/// Padding changes neither that the characters are digits nor their value.
pub proof fn lemma_zero_padded_value(n: nat, width: nat)
    ensures
        all_digits(zero_padded(decimal(n), width)),
        digits_value(zero_padded(decimal(n), width)) == n,
        zero_padded(decimal(n), width).len() > 0,
{
    lemma_decimal_value(n);
    let s = decimal(n);
    if s.len() < width {
        lemma_leading_zeros_value(s, (width - s.len()) as nat);
    }
}

/// A number in decimal, padded with zeros to at least `width` characters.
pub fn padded_decimal(n: u64, width: usize) -> (r: String)
    ensures
        r@ == zero_padded(decimal(n as nat), width as nat),
{
    let d = decimal_string(n);
    let v = chars_of(d.as_str());
    if v.len() >= width {
        return d;
    }
    let k: usize = width - v.len();
    let mut out = String::new();
    let mut i: usize = 0;
    while i < k
        invariant
            i <= k,
            out@ == Seq::new(i as nat, |j: int| '0'),
        decreases k - i,
    {
        out.push('0');
        i = i + 1;
        assert(out@ =~= Seq::new(i as nat, |j: int| '0'));
    }
    out.append(d.as_str());
    out
}

// ---------------------------------------------------------------------------
// Case and bytes
// ---------------------------------------------------------------------------

/// The lower-case form of an ASCII letter; any other character is kept.
pub open spec fn ascii_lower(c: char) -> char {
    if 0x41 <= c as u32 <= 0x5a {
        (c as u32 + 0x20) as char
    } else {
        c
    }
}

/// `str::to_ascii_lowercase` on the model.
pub open spec fn lower_ascii(s: Seq<char>) -> Seq<char> {
    s.map_values(|c: char| ascii_lower(c))
}

fn ascii_lower_exec(c: char) -> (r: char)
    ensures
        r == ascii_lower(c),
{
    let n: u32 = c as u32;
    if 0x41 <= n && n <= 0x5a {
        let b: u8 = n as u8;
        (b + 0x20) as char
    } else {
        c
    }
}

/// `str::to_ascii_lowercase`.
pub fn ascii_lowered(s: &str) -> (r: String)
    ensures
        r@ == lower_ascii(s@),
{
    let v = chars_of(s);
    let mut out = String::new();
    let mut i: usize = 0;
    while i < v.len()
        invariant
            i <= v@.len(),
            out@ == lower_ascii(v@.subrange(0, i as int)),
        decreases v@.len() - i,
    {
        out.push(ascii_lower_exec(v[i]));
        i = i + 1;
        assert(lower_ascii(v@.subrange(0, i as int)) =~= lower_ascii(v@.subrange(0, i - 1)).push(
            ascii_lower(v@[i - 1]),
        ));
    }
    assert(v@.subrange(0, v@.len() as int) =~= v@);
    out
}

/// Length of the UTF-8 encoding of `s`.
pub open spec fn byte_len(s: Seq<char>) -> nat {
    vstd::utf8::encode_utf8(s).len()
}

/// `str::len`.
pub fn byte_count(s: &str) -> (n: usize)
    ensures
        n == byte_len(s@),
{
    s.as_bytes().len()
}

/// Copy of an optional string.
pub fn clone_opt(o: &Option<String>) -> (r: Option<String>)
    ensures
        r.deep_view() == o.deep_view(),
        r == o,
{
    match o {
        Some(s) => Some(s.clone()),
        None => None,
    }
}

/// Copy of a list of strings.
pub fn clone_all(v: &Vec<String>) -> (r: Vec<String>)
    ensures
        r@ == v@,
        r.deep_view() == v.deep_view(),
{
    let mut out: Vec<String> = Vec::new();
    let mut i: usize = 0;
    while i < v.len()
        invariant
            i <= v@.len(),
            out@ == v@.subrange(0, i as int),
        decreases v@.len() - i,
    {
        out.push(v[i].clone());
        i = i + 1;
        assert(v@.subrange(0, i as int) =~= v@.subrange(0, i - 1).push(v@[i - 1]));
    }
    assert(out@ =~= v@);
    assert(out.deep_view() =~= v.deep_view());
    out
}

/// Whether `v` holds a string equal to `s`.
pub fn list_has(v: &Vec<String>, s: &str) -> (r: bool)
    ensures
        r == v.deep_view().contains(s@),
{
    let mut i: usize = 0;
    while i < v.len()
        invariant
            i <= v@.len(),
            forall|k: int| 0 <= k < i ==> v@[k]@ != s@,
        decreases v@.len() - i,
    {
        if text_eq(v[i].as_str(), s) {
            assert(v.deep_view()[i as int] == s@);
            return true;
        }
        i = i + 1;
    }
    assert forall|k: int| 0 <= k < v.deep_view().len() implies v.deep_view()[k] != s@ by {
        assert(v.deep_view()[k] == v@[k]@);
    }
    false
}

/// The part of `s` before the first `c`; all of it where `c` does not occur.
pub open spec fn before_char(s: Seq<char>, c: char) -> Seq<char>
    decreases s.len(),
{
    if s.len() == 0 || s[0] == c {
        Seq::empty()
    } else {
        seq![s[0]] + before_char(s.subrange(1, s.len() as int), c)
    }
}

/// The part of `s` before the first `c`; all of it where `c` does not occur.
pub fn head_before(s: &str, c: char) -> (r: String)
    ensures
        r@ == before_char(s@, c),
{
    let v = chars_of(s);
    let mut i: usize = 0;
    assert(v@.subrange(0, v@.len() as int) =~= v@);
    assert(v@.subrange(0, 0) + before_char(v@, c) =~= before_char(v@, c));
    while i < v.len() && v[i] != c
        invariant
            i <= v@.len(),
            v@.subrange(0, i as int) + before_char(v@.subrange(i as int, v@.len() as int), c)
                == before_char(v@, c),
        decreases v@.len() - i,
    {
        proof {
            let rest = v@.subrange(i as int, v@.len() as int);
            assert(rest.subrange(1, rest.len() as int) =~= v@.subrange(i + 1, v@.len() as int));
            assert(v@.subrange(0, i as int) + before_char(rest, c) =~= v@.subrange(0, i + 1)
                + before_char(v@.subrange(i + 1, v@.len() as int), c));
        }
        i = i + 1;
    }
    assert(v@.subrange(0, i as int) =~= before_char(v@, c));
    string_of(&v, 0, i)
}

/// Every character is an ASCII character.
pub open spec fn is_ascii(s: Seq<char>) -> bool {
    forall|i: int| 0 <= i < s.len() ==> (#[trigger] s[i]) as int <= 0x7f
}

/// The lower-case equivalent of a text by Unicode's rules.
pub uninterp spec fn lower_text(s: Seq<char>) -> Seq<char>;

/// `str::to_lowercase`. The result is a function of the text, named
/// [`lower_text`]; on ASCII text it lowers the letters and nothing else.
#[verifier::external_body]
pub(crate) fn lowered(s: &str) -> (r: String)
    ensures
        r@ == lower_text(s@),
        is_ascii(s@) ==> r@ == lower_ascii(s@),
{
    s.to_lowercase()
}

/// Number of bytes that a character takes in UTF-8.
pub open spec fn char_width(c: char) -> nat {
    vstd::utf8::encode_scalar(c as u32).len()
}

/// Number of bytes that a character takes in UTF-8.
pub fn char_width_exec(c: char) -> (n: usize)
    ensures
        n == char_width(c),
        1 <= n <= 4,
{
    let v: u32 = c as u32;
    if v <= 0x7f {
        1
    } else if v <= 0x7ff {
        2
    } else if v <= 0xffff {
        3
    } else {
        4
    }
}

/// The encoding of two texts, one behind the other, is that of each.
pub proof fn lemma_encode_concat(a: Seq<char>, b: Seq<char>)
    ensures
        vstd::utf8::encode_utf8(a + b) == vstd::utf8::encode_utf8(a) + vstd::utf8::encode_utf8(b),
    decreases a.len(),
{
    if a.len() == 0 {
        assert(a + b =~= b);
        assert(vstd::utf8::encode_utf8(a) + vstd::utf8::encode_utf8(b)
            =~= vstd::utf8::encode_utf8(b));
    } else {
        lemma_encode_concat(a.drop_first(), b);
        assert((a + b).drop_first() =~= a.drop_first() + b);
        assert((a + b)[0] == a[0]);
        let h = vstd::utf8::encode_scalar(a[0] as u32);
        assert(vstd::utf8::encode_utf8(a + b) == h + vstd::utf8::encode_utf8((a + b).drop_first()));
        assert(vstd::utf8::encode_utf8(a + b) =~= (h + vstd::utf8::encode_utf8(a.drop_first()))
            + vstd::utf8::encode_utf8(b));
    }
}

/// Another character adds its width to the length of the encoding.
pub proof fn lemma_byte_len_push(s: Seq<char>, c: char)
    ensures
        byte_len(s.push(c)) == byte_len(s) + char_width(c),
{
    let one = seq![c];
    lemma_encode_concat(s, one);
    assert(s + one =~= s.push(c));
    assert(one.drop_first() =~= Seq::<char>::empty());
    let h = vstd::utf8::encode_scalar(c as u32);
    assert(vstd::utf8::encode_utf8(one) == h + vstd::utf8::encode_utf8(one.drop_first()));
    assert(vstd::utf8::encode_utf8(Seq::<char>::empty()).len() == 0);
}

/// Number of characters in the longest prefix of `s` that takes at most `n` bytes.
pub open spec fn fitting(s: Seq<char>, n: nat) -> nat
    decreases s.len(),
{
    if s.len() == 0 || byte_len(s) <= n {
        s.len()
    } else {
        fitting(s.drop_last(), n)
    }
}

/// An ASCII character takes one byte.
proof fn lemma_ascii_width(c: char)
    requires
        c as int <= 0x7f,
    ensures
        char_width(c) == 1,
{
    assert(c as u32 <= 0x7f);
}

/// An ASCII text takes one byte for each character.
pub proof fn lemma_ascii_byte_len(s: Seq<char>)
    requires
        is_ascii(s),
    ensures
        byte_len(s) == s.len(),
    decreases s.len(),
{
    if s.len() == 0 {
        assert(vstd::utf8::encode_utf8(s).len() == 0);
    } else {
        let rest = s.drop_last();
        assert forall|i: int| 0 <= i < rest.len() implies (#[trigger] rest[i]) as int <= 0x7f by {
            assert(s[i] == rest[i]);
        }
        lemma_ascii_byte_len(rest);
        lemma_byte_len_push(rest, s.last());
        assert(rest.push(s.last()) =~= s);
        lemma_ascii_width(s[s.len() - 1]);
    }
}

/// As many characters of an ASCII text fit as there are bytes for them.
pub proof fn lemma_ascii_fitting(s: Seq<char>, n: nat)
    requires
        is_ascii(s),
        n <= s.len(),
    ensures
        fitting(s, n) == n,
    decreases s.len(),
{
    lemma_ascii_byte_len(s);
    if s.len() > n {
        let rest = s.drop_last();
        assert forall|i: int| 0 <= i < rest.len() implies (#[trigger] rest[i]) as int <= 0x7f by {
            assert(s[i] == rest[i]);
        }
        lemma_ascii_fitting(rest, n);
    }
}

proof fn lemma_byte_len_prefix(s: Seq<char>, k: int)
    requires
        0 <= k <= s.len(),
    ensures
        byte_len(s.subrange(0, k)) <= byte_len(s),
    decreases s.len() - k,
{
    if k == s.len() {
        assert(s.subrange(0, k) =~= s);
    } else {
        lemma_byte_len_prefix(s, k + 1);
        lemma_byte_len_push(s.subrange(0, k), s[k]);
        assert(s.subrange(0, k).push(s[k]) =~= s.subrange(0, k + 1));
    }
}

/// The longest fitting prefix is the one that the next character makes too long.
pub proof fn lemma_fitting(s: Seq<char>, n: nat, k: int)
    requires
        0 <= k <= s.len(),
        k > 0 ==> byte_len(s.subrange(0, k)) <= n,
        k < s.len() ==> byte_len(s.subrange(0, k + 1)) > n,
    ensures
        fitting(s, n) == k,
    decreases s.len(),
{
    if k == s.len() {
        assert(s.subrange(0, k) =~= s);
    } else {
        lemma_byte_len_prefix(s, k + 1);
        let d = s.drop_last();
        assert(d.subrange(0, k) =~= s.subrange(0, k));
        if k < d.len() {
            assert(d.subrange(0, k + 1) =~= s.subrange(0, k + 1));
        }
        lemma_fitting(d, n, k);
    }
}

/// A fitting prefix takes at most `n` bytes, and is no longer than the text.
pub proof fn lemma_fitting_bounds(s: Seq<char>, n: nat)
    ensures
        fitting(s, n) <= s.len(),
        byte_len(s.subrange(0, fitting(s, n) as int)) <= n,
    decreases s.len(),
{
    if s.len() == 0 || byte_len(s) <= n {
        assert(s.subrange(0, s.len() as int) =~= s);
        if s.len() == 0 {
            assert(vstd::utf8::encode_utf8(s).len() == 0);
        }
    } else {
        lemma_fitting_bounds(s.drop_last(), n);
        let k = fitting(s.drop_last(), n) as int;
        assert(s.drop_last().subrange(0, k) =~= s.subrange(0, k));
    }
}

/// Number of characters in the longest prefix that takes at most `n` bytes.
pub fn fitting_count(v: &Vec<char>, n: usize) -> (k: usize)
    ensures
        k == fitting(v@, n as nat),
        k <= v@.len(),
{
    let mut k: usize = 0;
    let mut used: usize = 0;
    assert(v@.subrange(0, 0) =~= Seq::<char>::empty());
    while k < v.len()
        invariant
            k <= v@.len(),
            used <= n,
            used == byte_len(v@.subrange(0, k as int)),
        decreases v@.len() - k,
    {
        let w: usize = char_width_exec(v[k]);
        proof {
            lemma_byte_len_push(v@.subrange(0, k as int), v@[k as int]);
            assert(v@.subrange(0, k as int).push(v@[k as int]) =~= v@.subrange(0, k + 1));
        }
        if w > n - used {
            proof {
                lemma_fitting(v@, n as nat, k as int);
            }
            return k;
        }
        used = used + w;
        k = k + 1;
    }
    proof {
        lemma_fitting(v@, n as nat, k as int);
    }
    k
}

/// The text that `String::from_utf8_lossy` makes of some bytes.
pub uninterp spec fn lossy_text(bytes: Seq<u8>) -> Seq<char>;

/// `String::from_utf8_lossy`. The result is a function of the bytes, named
/// [`lossy_text`]; of valid UTF-8 it is the text that they encode.
#[verifier::external_body]
pub(crate) fn lossy(bytes: &[u8]) -> (r: String)
    ensures
        r@ == lossy_text(bytes@),
        vstd::utf8::valid_utf8(bytes@) ==> r@ == vstd::utf8::decode_utf8(bytes@),
{
    String::from_utf8_lossy(bytes).into_owned()
}

/// Adds `s` to the end of `v`, unless it is there already.
pub fn push_new(v: &mut Vec<String>, s: String)
    ensures
        final(v).deep_view() == (if old(v).deep_view().contains(s@) {
            old(v).deep_view()
        } else {
            old(v).deep_view().push(s@)
        }),
        old(v).deep_view().no_duplicates() ==> final(v).deep_view().no_duplicates(),
        forall|t: Seq<char>| #[trigger]
            final(v).deep_view().contains(t) <==> (old(v).deep_view().contains(t) || t == s@),
{
    let ghost before = v.deep_view();
    if !list_has(v, s.as_str()) {
        v.push(s);
        proof {
            let after = v.deep_view();
            assert(after =~= before.push(s@));
            assert forall|t: Seq<char>| #[trigger] after.contains(t) <==> (before.contains(t) || t
                == s@) by {
                if before.contains(t) {
                    let i = choose|i: int| 0 <= i < before.len() && before[i] == t;
                    assert(after[i] == t);
                }
                if t == s@ {
                    assert(after[after.len() - 1] == t);
                }
            }
            if before.no_duplicates() {
                assert forall|i: int, j: int|
                    0 <= i < after.len() && 0 <= j < after.len() && i != j implies after[i]
                    != after[j] by {
                    if i == before.len() {
                        assert(before[j] == after[j]);
                    } else if j == before.len() {
                        assert(before[i] == after[i]);
                    }
                }
            }
        }
    }
}

/// A prefix that is the longest to fit lacks less than four bytes, unless it is
/// the whole text.
pub proof fn lemma_fitting_tight(s: Seq<char>, n: nat)
    requires
        byte_len(s) > n,
    ensures
        byte_len(s.subrange(0, fitting(s, n) as int)) + 4 > n,
    decreases s.len(),
{
    if s.len() == 0 {
        assert(vstd::utf8::encode_utf8(s).len() == 0);
    } else {
        let d = s.drop_last();
        lemma_byte_len_push(d, s.last());
        assert(d.push(s.last()) =~= s);
        if byte_len(d) <= n {
            assert(d.subrange(0, d.len() as int) =~= d);
            assert(fitting(d, n) == d.len());
            assert(s.subrange(0, d.len() as int) =~= d);
        } else {
            lemma_fitting_tight(d, n);
            lemma_fitting_bounds(d, n);
            let k = fitting(d, n) as int;
            assert(d.subrange(0, k) =~= s.subrange(0, k));
        }
    }
}

/// A text takes at most four bytes for each character.
pub proof fn lemma_byte_len_bound(s: Seq<char>)
    ensures
        byte_len(s) <= 4 * s.len(),
    decreases s.len(),
{
    if s.len() == 0 {
        assert(vstd::utf8::encode_utf8(s).len() == 0);
    } else {
        lemma_byte_len_bound(s.drop_last());
        lemma_byte_len_push(s.drop_last(), s.last());
        assert(s.drop_last().push(s.last()) =~= s);
    }
}

/// A number that fits in 64 bits has at most twenty digits.
pub proof fn lemma_decimal_len(n: nat)
    requires
        n <= u64::MAX,
    ensures
        decimal(n).len() <= 20,
{
    reveal_with_fuel(decimal, 21);
}

/// `str::trim_start`.
pub fn trimmed_start(s: &str) -> (r: String)
    ensures
        r@ == trim_start(s@),
{
    let v = chars_of(s);
    let n = white_prefix(&v);
    string_of(&v, n, v.len())
}

/// `String::from_utf8`: the text that some bytes encode, where they are valid
/// UTF-8.
#[verifier::external_body]
pub(crate) fn utf8_text(bytes: &[u8]) -> (r: Option<String>)
    ensures
        match r {
            Some(s) => vstd::utf8::valid_utf8(bytes@) && s@ == vstd::utf8::decode_utf8(bytes@),
            None => !vstd::utf8::valid_utf8(bytes@),
        },
{
    String::from_utf8(bytes.to_vec()).ok()
}

/// What `{:?}` shows of a text.
pub uninterp spec fn quoted_text(s: Seq<char>) -> Seq<char>;

/// The `Debug` impl of `str`, as `format!` uses it for `{:?}`: the text in double
/// quotes, with its special characters escaped. What is escaped, and how, is not
/// stated.
#[verifier::external_body]
pub(crate) fn quoted(s: &str) -> (r: String)
    ensures
        r@ == quoted_text(s@),
{
    format!("{:?}", s)
}

/// What a list holds after one more text was added.
pub proof fn lemma_push_contains(s: Seq<Seq<char>>, x: Seq<char>, t: Seq<char>)
    ensures
        s.push(x).contains(t) <==> s.contains(t) || t == x,
{
    if s.contains(t) {
        let k = choose|k: int| 0 <= k < s.len() && s[k] == t;
        assert(s.push(x)[k] == t);
    }
    if t == x {
        assert(s.push(x)[s.len() as int] == t);
    }
    if s.push(x).contains(t) {
        let k = choose|k: int| 0 <= k < s.push(x).len() && s.push(x)[k] == t;
        if k < s.len() {
            assert(s[k] == t);
        }
    }
}

/// A text stands in what surrounds it.
pub proof fn lemma_has_text_around(left: Seq<char>, p: Seq<char>, right: Seq<char>)
    ensures
        has_text(left + p + right, p),
{
    let s = left + p + right;
    assert(s.subrange(left.len() as int, left.len() as int + p.len()) =~= p);
    assert(occurs_at(s, p, left.len() as int));
}

/// What stands in a text stands in what surrounds the text.
pub proof fn lemma_has_text_inside(s: Seq<char>, p: Seq<char>, left: Seq<char>, right: Seq<char>)
    requires
        has_text(s, p),
    ensures
        has_text(left + s + right, p),
{
    let i = choose|i: int| #[trigger] occurs_at(s, p, i);
    let t = left + s + right;
    assert(t.subrange(left.len() + i, left.len() + i + p.len()) =~= s.subrange(i, i + p.len()));
    assert(occurs_at(t, p, left.len() + i));
}

/// What is added to parts that are joined without a separator stands at the end.
pub proof fn lemma_join_push(parts: Seq<Seq<char>>, last: Seq<char>)
    ensures
        join(parts.push(last), Seq::empty()) == join(parts, Seq::empty()) + last,
{
    let all = parts.push(last);
    assert(all.drop_last() =~= parts);
    if parts.len() == 0 {
        assert(join(parts, Seq::empty()) + last =~= last);
    } else {
        assert(join(parts, Seq::empty()) + Seq::<char>::empty() + last =~= join(
            parts,
            Seq::empty(),
        ) + last);
    }
}

/// Every part of a joined text stands in it.
pub proof fn lemma_join_has(parts: Seq<Seq<char>>, sep: Seq<char>, i: int)
    requires
        0 <= i < parts.len(),
    ensures
        has_text(join(parts, sep), parts[i]),
    decreases parts.len(),
{
    let none = Seq::<char>::empty();
    if parts.len() == 1 {
        lemma_has_text_around(none, parts[0], none);
        assert(none + parts[0] + none =~= parts[0]);
    } else if i == parts.len() - 1 {
        let front = join(parts.drop_last(), sep) + sep;
        lemma_has_text_around(front, parts[i], none);
        assert(front + parts[i] + none =~= join(parts, sep));
    } else {
        lemma_join_has(parts.drop_last(), sep, i);
        let front = join(parts.drop_last(), sep);
        lemma_has_text_inside(front, parts[i], none, sep + parts.last());
        assert(none + front + (sep + parts.last()) =~= join(parts, sep));
    }
}

/// A text is blank exactly where nothing of it is left when it is trimmed.
pub proof fn lemma_trim_blank(s: Seq<char>)
    ensures
        all_white(s) <==> trim(s).len() == 0,
{
    lemma_trim_start_blank(s);
    let t = trim_start(s);
    if t.len() > 0 {
        lemma_trim_end_keeps(t);
    }
}

proof fn lemma_trim_start_blank(s: Seq<char>)
    ensures
        all_white(s) <==> trim_start(s).len() == 0,
        trim_start(s).len() > 0 ==> !is_white(trim_start(s)[0]),
    decreases s.len(),
{
    if s.len() > 0 && is_white(s[0]) {
        let rest = s.subrange(1, s.len() as int);
        lemma_trim_start_blank(rest);
        if all_white(rest) {
            assert forall|i: int| 0 <= i < s.len() implies is_white(#[trigger] s[i]) by {
                if i > 0 {
                    assert(rest[i - 1] == s[i]);
                }
            }
        }
        if all_white(s) {
            assert forall|i: int| 0 <= i < rest.len() implies is_white(#[trigger] rest[i]) by {
                assert(s[i + 1] == rest[i]);
            }
        }
    }
}

proof fn lemma_trim_end_keeps(s: Seq<char>)
    requires
        s.len() > 0,
        !is_white(s[0]),
    ensures
        trim_end(s).len() > 0,
    decreases s.len(),
{
    if is_white(s.last()) {
        assert(s.drop_last()[0] == s[0]);
        lemma_trim_end_keeps(s.drop_last());
    }
}

/// What stands in a part of a text stands in the text.
pub proof fn lemma_has_text_trans(s: Seq<char>, p: Seq<char>, q: Seq<char>)
    requires
        has_text(s, p),
        has_text(p, q),
    ensures
        has_text(s, q),
{
    let i = choose|i: int| #[trigger] occurs_at(s, p, i);
    let left = s.subrange(0, i);
    let right = s.subrange(i + p.len(), s.len() as int);
    lemma_has_text_inside(p, q, left, right);
    assert(left + p + right =~= s);
}

/// Every listed part of a joined text stands in it.
pub proof fn lemma_join_contains(parts: Seq<Seq<char>>, sep: Seq<char>, x: Seq<char>)
    requires
        parts.contains(x),
    ensures
        has_text(join(parts, sep), x),
{
    let i = choose|i: int| 0 <= i < parts.len() && parts[i] == x;
    lemma_join_has(parts, sep, i);
}

/// A text stands in what it ends.
pub proof fn lemma_has_ending(a: Seq<char>, b: Seq<char>, c: Seq<char>)
    ensures
        has_text(a + b + c, b + c),
{
    let s = a + b + c;
    let p = b + c;
    assert(s.subrange(a.len() as int, a.len() as int + p.len()) =~= p);
    assert(occurs_at(s, p, a.len() as int));
}

// ---------------------------------------------------------------------------
// Laws of texts
// ---------------------------------------------------------------------------

/// Trimming takes the white space off both ends and nothing else.
pub proof fn trimming_takes_white_space_alone(left: Seq<char>, s: Seq<char>, right: Seq<char>)
    requires
        forall|i: int|
            0 <= i < left.len() ==> ((#[trigger] left[i]) == ' ' || left[i] == '\t' || left[i]
                == '\n' || left[i] == '\r'),
        forall|i: int|
            0 <= i < right.len() ==> ((#[trigger] right[i]) == ' ' || right[i] == '\t' || right[i]
                == '\n' || right[i] == '\r'),
        s.len() > 0,
        0x21 <= s[0] as u32 <= 0x7e,
        0x21 <= s.last() as u32 <= 0x7e,
    ensures
        trim(left + s + right) == s,
{
    assert forall|i: int| 0 <= i < left.len() implies is_white(#[trigger] left[i]) by {
    }
    assert forall|i: int| 0 <= i < right.len() implies is_white(#[trigger] right[i]) by {
    }
    lemma_trim_padded(left, s, right);
}

/// The decimal digits of a number stand for it, each ten times what the next does.
pub proof fn decimal_digits_stand_for_the_number(n: nat, d: nat)
    requires
        d < 10,
    ensures
        decimal(d) == seq![(0x30 + d) as char],
        n > 0 ==> decimal(10 * n + d) == decimal(n).push((0x30 + d) as char),
{
    if n > 0 {
        assert((10 * n + d) / 10 == n && (10 * n + d) % 10 == d);
    }
}

/// What is written of a number is read as that number, with or without a plus sign.
pub proof fn written_numbers_are_read(n: u64)
    ensures
        parse_u64(decimal(n as nat)) == Some(n),
        parse_u64(seq!['+'] + decimal(n as nat)) == Some(n),
{
    let d = decimal(n as nat);
    lemma_decimal_value(n as nat);
    let p = seq!['+'] + d;
    assert(p.subrange(1, p.len() as int) =~= d);
    assert(d[0] != '+') by {
        assert(is_digit(d[0]));
    }
}

/// A text with a character that is no digit, but for a plus sign at its start, is no number.
pub proof fn other_texts_are_no_numbers(s: Seq<char>, i: int)
    requires
        0 <= i < s.len(),
        !('0' <= s[i] <= '9'),
        i > 0 || s[0] != '+',
    ensures
        parse_u64(s) is None,
{
    lemma_char_code(s[i]);
    if s[0] == '+' {
        let d = s.subrange(1, s.len() as int);
        assert(!is_digit(d[i - 1]));
    } else {
        assert(!is_digit(s[i]));
    }
}

/// The part before a character ends where the character first stands.
pub proof fn heads_end_at_the_character(a: Seq<char>, c: char, b: Seq<char>)
    requires
        !a.contains(c),
    ensures
        before_char(a, c) == a,
        before_char(a + seq![c] + b, c) == a,
    decreases a.len(),
{
    let s = a + seq![c] + b;
    if a.len() > 0 {
        let rest = a.subrange(1, a.len() as int);
        assert forall|i: int| 0 <= i < rest.len() implies rest[i] != c by {
            assert(rest[i] == a[i + 1]);
            assert(a.contains(a[i + 1]));
        }
        assert(!rest.contains(c));
        heads_end_at_the_character(rest, c, b);
        assert(a.contains(a[0]));
        assert(s[0] == a[0]);
        assert(s.subrange(1, s.len() as int) =~= rest + seq![c] + b);
        assert(seq![a[0]] + rest =~= a);
    } else {
        assert(s[0] == c);
    }
}

/// Replacing changes the first occurrence and goes on behind it; a text without one stays as
/// it is.
pub proof fn replacing_goes_from_left_to_right(
    a: Seq<char>,
    from: Seq<char>,
    b: Seq<char>,
    to: Seq<char>,
)
    requires
        from.len() > 0,
        forall|i: int| 0 <= i < a.len() ==> !#[trigger] occurs_at(a + from + b, from, i),
    ensures
        replace_text(a + from + b, from, to) == a + to + replace_text(b, from, to),
        !has_text(b, from) ==> replace_text(b, from, to) == b,
{
    let s = a + from + b;
    let n = a.len() as int;
    assert(s.subrange(n, n + from.len()) =~= from);
    assert(occurs_at(s, from, n));
    lemma_find_text(s, from, 0);
    assert(find_text(s, from, 0) == Some(n));
    assert(s.subrange(0, n) =~= a);
    assert(s.subrange(n + from.len(), s.len() as int) =~= b);
    lemma_find_text(b, from, 0);
}

/// Lowering changes the ASCII capitals into their small letters and nothing else.
pub proof fn lowering_changes_capitals_alone(s: Seq<char>, i: int)
    requires
        0 <= i < s.len(),
    ensures
        lower_ascii(s).len() == s.len(),
        !('A' <= s[i] <= 'Z') ==> lower_ascii(s)[i] == s[i],
        'A' <= s[i] <= 'Z' ==> lower_ascii(s)[i] as u32 == s[i] as u32 + 32,
{
    lemma_char_code(s[i]);
}

/// A cut text is the longest beginning that fits in the bytes.
pub proof fn cuts_are_the_longest_that_fit(s: Seq<char>, n: nat, k: int)
    requires
        0 <= k <= s.len(),
    ensures
        fitting(s, n) <= s.len(),
        byte_len(s) <= n ==> fitting(s, n) == s.len(),
        fitting(s, n) > 0 ==> byte_len(s.subrange(0, fitting(s, n) as int)) <= n,
        byte_len(s.subrange(0, k)) <= n ==> k <= fitting(s, n),
    decreases s.len(),
{
    if s.len() == 0 || byte_len(s) <= n {
        assert(s.subrange(0, s.len() as int) =~= s);
    } else {
        let d = s.drop_last();
        if k < s.len() {
            assert(d.subrange(0, k) =~= s.subrange(0, k));
            cuts_are_the_longest_that_fit(d, n, k);
        } else {
            assert(s.subrange(0, k) =~= s);
            cuts_are_the_longest_that_fit(d, n, 0);
        }
        let f = fitting(s, n) as int;
        if f > 0 {
            assert(d.subrange(0, f) =~= s.subrange(0, f));
        }
    }
}

/// Numbers filled up with zeros have the width, end with their digits, and begin with zeros.
pub proof fn padding_adds_zeros(s: Seq<char>, width: nat, i: int)
    ensures
        s.len() >= width ==> zero_padded(s, width) == s,
        s.len() < width ==> zero_padded(s, width).len() == width,
        s.len() < width && 0 <= i < width - s.len() ==> zero_padded(s, width)[i] == '0',
        s.len() < width && width - s.len() <= i < width ==> zero_padded(s, width)[i] == s[i - (width
            - s.len())],
{
}

} // verus!
