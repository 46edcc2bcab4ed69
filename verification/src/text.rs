//! Text primitives: substring tests, ASCII case folding, trimming, decimal
//! numbers and the order of strings, each stated over sequences of characters.

use vstd::prelude::*;
use vstd::string::*;

verus! {

// ── sequences of characters ────────────────────────────────────────────────

/// `pat` occurs in `s` starting at position `at`.
pub open spec fn occurs_at(s: Seq<char>, pat: Seq<char>, at: int) -> bool {
    &&& 0 <= at
    &&& at + pat.len() <= s.len()
    &&& s.subrange(at, at + pat.len()) == pat
}

/// `pat` occurs somewhere in `s`.
pub open spec fn contains_seq(s: Seq<char>, pat: Seq<char>) -> bool {
    exists|at: int| #[trigger] occurs_at(s, pat, at)
}

/// `s` begins with `pat`.
pub open spec fn starts_with_seq(s: Seq<char>, pat: Seq<char>) -> bool {
    occurs_at(s, pat, 0)
}

/// `s` ends with `pat`.
pub open spec fn ends_with_seq(s: Seq<char>, pat: Seq<char>) -> bool {
    occurs_at(s, pat, s.len() - pat.len())
}

/// The characters of `s`, in order.
pub fn chars_of(s: &str) -> (v: Vec<char>)
    ensures
        v@ == s@,
{
    let mut v: Vec<char> = Vec::new();
    for c in it: s.chars()
        invariant
            it.seq() == s@,
            v@ == it.seq().take(it.index() as int),
    {
        v.push(c);
    }
    v
}

fn occurs(s: &Vec<char>, pat: &Vec<char>, at: usize) -> (r: bool)
    requires
        at + pat@.len() <= s@.len(),
    ensures
        r == occurs_at(s@, pat@, at as int),
{
    let n: usize = s.len();
    let mut i: usize = 0;
    while i < pat.len()
        invariant
            n == s@.len(),
            i <= pat@.len(),
            at + pat@.len() <= s@.len(),
            forall|j: int| 0 <= j < i ==> s@[at + j] == pat@[j],
        decreases pat@.len() - i,
    {
        if s[at + i] != pat[i] {
            assert(s@.subrange(at as int, at + pat@.len())[i as int] != pat@[i as int]);
            return false;
        }
        i += 1;
    }
    assert(s@.subrange(at as int, at + pat@.len()) =~= pat@);
    true
}

/// Whether `a` and `b` are the same text.
pub fn same(a: &str, b: &str) -> (r: bool)
    ensures
        r == (a@ == b@),
{
    let ca = chars_of(a);
    let cb = chars_of(b);
    if ca.len() != cb.len() {
        return false;
    }
    let r = occurs(&ca, &cb, 0);
    assert(ca@.subrange(0, ca@.len() as int) =~= ca@);
    r
}

/// Whether `pat` occurs in `s`.
pub fn contains(s: &str, pat: &str) -> (r: bool)
    ensures
        r == contains_seq(s@, pat@),
{
    let cs = chars_of(s);
    let cp = chars_of(pat);
    if cs.len() < cp.len() {
        return false;
    }
    let last: usize = cs.len() - cp.len();
    let mut at: usize = 0;
    while at <= last
        invariant
            cs@ == s@,
            cp@ == pat@,
            last == cs@.len() - cp@.len(),
            at <= last + 1,
            forall|j: int| 0 <= j < at ==> !#[trigger] occurs_at(cs@, cp@, j),
        decreases last + 1 - at,
    {
        if occurs(&cs, &cp, at) {
            return true;
        }
        if at == last {
            return false;
        }
        at += 1;
    }
    false
}

/// Whether `s` begins with `pat`.
pub fn starts_with(s: &str, pat: &str) -> (r: bool)
    ensures
        r == starts_with_seq(s@, pat@),
{
    let cs = chars_of(s);
    let cp = chars_of(pat);
    cs.len() >= cp.len() && occurs(&cs, &cp, 0)
}

/// Whether `s` ends with `pat`.
pub fn ends_with(s: &str, pat: &str) -> (r: bool)
    ensures
        r == ends_with_seq(s@, pat@),
{
    let cs = chars_of(s);
    let cp = chars_of(pat);
    cs.len() >= cp.len() && occurs(&cs, &cp, cs.len() - cp.len())
}

/// `a` followed by `b`.
pub fn joined(a: &str, b: &str) -> (r: String)
    ensures
        r@ == a@ + b@,
{
    let mut r = String::new();
    r.append(a);
    r.append(b);
    assert(Seq::<char>::empty() + a@ =~= a@);
    r
}

/// What remains of `s` after its first `n` characters; empty when there are
/// not that many.
pub open spec fn skip_chars(s: Seq<char>, n: nat) -> Seq<char> {
    if n <= s.len() {
        s.skip(n as int)
    } else {
        Seq::empty()
    }
}

/// What remains of `s` after its first `n` characters.
pub fn skipped(s: &str, n: usize) -> (r: String)
    ensures
        r@ == skip_chars(s@, n as nat),
{
    let len: usize = s.unicode_len();
    if n <= len {
        let rest = s.substring_char(n, len);
        assert(rest@ =~= s@.skip(n as int));
        rest.to_owned()
    } else {
        String::new()
    }
}

// ── ASCII case ─────────────────────────────────────────────────────────────

/// `c` with an ASCII capital turned into its small letter.
pub open spec fn lower_char(c: char) -> char {
    if 'A' <= c && c <= 'Z' {
        (c as u32 + 32) as char
    } else {
        c
    }
}

/// `s` with every ASCII capital turned into its small letter.
pub open spec fn lower_seq(s: Seq<char>) -> Seq<char> {
    s.map_values(|c: char| lower_char(c))
}

fn lower(c: char) -> (r: char)
    ensures
        r == lower_char(c),
{
    if 'A' <= c && c <= 'Z' {
        let b: u8 = c as u8;
        (b + 32) as char
    } else {
        c
    }
}

/// Whether `s`, in small letters, is `word`.
pub fn lower_is(s: &str, word: &str) -> (r: bool)
    ensures
        r == (lower_seq(s@) == word@),
{
    let cs = chars_of(s);
    let cw = chars_of(word);
    if cs.len() != cw.len() {
        assert(lower_seq(s@).len() == s@.len());
        return false;
    }
    let mut i: usize = 0;
    while i < cs.len()
        invariant
            i <= cs@.len(),
            cs@.len() == cw@.len(),
            forall|j: int| 0 <= j < i ==> lower_char(cs@[j]) == cw@[j],
            cs@ == s@,
            cw@ == word@,
        decreases cs@.len() - i,
    {
        if lower(cs[i]) != cw[i] {
            assert(lower_seq(s@)[i as int] != word@[i as int]);
            return false;
        }
        i += 1;
    }
    assert(lower_seq(s@) =~= word@);
    true
}

// ── white space ────────────────────────────────────────────────────────────

/// The characters with the Unicode property `White_Space`.
pub open spec fn is_white(c: char) -> bool {
    ||| 0x9 <= c as u32 <= 0xD
    ||| c as u32 == 0x20
    ||| c as u32 == 0x85
    ||| c as u32 == 0xA0
    ||| c as u32 == 0x1680
    ||| 0x2000 <= c as u32 <= 0x200A
    ||| c as u32 == 0x2028
    ||| c as u32 == 0x2029
    ||| c as u32 == 0x202F
    ||| c as u32 == 0x205F
    ||| c as u32 == 0x3000
}

fn white(c: char) -> (r: bool)
    ensures
        r == is_white(c),
{
    let u: u32 = c as u32;
    (0x9 <= u && u <= 0xD) || u == 0x20 || u == 0x85 || u == 0xA0 || u == 0x1680 || (0x2000 <= u
        && u <= 0x200A) || u == 0x2028 || u == 0x2029 || u == 0x202F || u == 0x205F || u == 0x3000
}

/// `s` without leading white space.
pub open spec fn trim_start_seq(s: Seq<char>) -> Seq<char>
    decreases s.len(),
{
    if s.len() > 0 && is_white(s.first()) {
        trim_start_seq(s.drop_first())
    } else {
        s
    }
}

/// `s` without trailing white space.
pub open spec fn trim_end_seq(s: Seq<char>) -> Seq<char>
    decreases s.len(),
{
    if s.len() > 0 && is_white(s.last()) {
        trim_end_seq(s.drop_last())
    } else {
        s
    }
}

/// `s` without leading and trailing white space.
pub open spec fn trim_seq(s: Seq<char>) -> Seq<char> {
    trim_end_seq(trim_start_seq(s))
}

/// `s` without leading and trailing white space.
pub fn trimmed(s: &str) -> (r: String)
    ensures
        r@ == trim_seq(s@),
{
    let cs = chars_of(s);
    let mut from: usize = 0;
    assert(cs@.skip(0) =~= cs@);
    while from < cs.len() && white(cs[from])
        invariant
            from <= cs@.len(),
            trim_start_seq(cs@) == trim_start_seq(cs@.skip(from as int)),
        decreases cs@.len() - from,
    {
        assert(cs@.skip(from as int).drop_first() =~= cs@.skip(from + 1));
        from += 1;
    }
    assert(trim_start_seq(cs@) == cs@.skip(from as int));
    let mut to: usize = cs.len();
    assert(cs@.subrange(from as int, to as int) =~= cs@.skip(from as int));
    while to > from && white(cs[to - 1])
        invariant
            from <= to <= cs@.len(),
            trim_end_seq(cs@.skip(from as int)) == trim_end_seq(
                cs@.subrange(from as int, to as int),
            ),
        decreases to,
    {
        assert(cs@.subrange(from as int, to as int).drop_last() =~= cs@.subrange(
            from as int,
            to - 1,
        ));
        to -= 1;
    }
    s.substring_char(from, to).to_owned()
}

// ── decimal numbers ────────────────────────────────────────────────────────

/// `c` is one of the ten ASCII digits.
pub open spec fn is_digit(c: char) -> bool {
    '0' <= c && c <= '9'
}

/// `s` holds nothing but ASCII digits.
pub open spec fn all_digits(s: Seq<char>) -> bool {
    forall|i: int| 0 <= i < s.len() ==> is_digit(#[trigger] s[i])
}

/// The number that the digits `s` write in base ten.
pub open spec fn digits_value(s: Seq<char>) -> nat
    decreases s.len(),
{
    if s.len() == 0 {
        0
    } else {
        digits_value(s.drop_last()) * 10 + (s.last() as u32 - '0' as u32) as nat
    }
}

/// `s` without one leading plus sign.
pub open spec fn without_plus(s: Seq<char>) -> Seq<char> {
    if s.len() > 0 && s[0] == '+' {
        s.drop_first()
    } else {
        s
    }
}

/// The unsigned number that `s` writes: an optional plus sign and at least one
/// digit, of value at most `max`.
pub open spec fn parse_spec(s: Seq<char>, max: nat) -> Option<nat> {
    let d = without_plus(s);
    if d.len() > 0 && all_digits(d) && digits_value(d) <= max {
        Some(digits_value(d))
    } else {
        None
    }
}

proof fn lemma_digits_grow(s: Seq<char>, n: int)
    requires
        0 <= n <= s.len(),
        all_digits(s),
    ensures
        digits_value(s.take(n)) <= digits_value(s),
    decreases s.len() - n,
{
    if n < s.len() {
        lemma_digits_grow(s, n + 1);
        assert(s.take(n + 1).drop_last() =~= s.take(n));
        assert(s.take(n + 1).last() == s[n]);
    } else {
        assert(s.take(n) =~= s);
    }
}

/// The number that the digits of `cs` from `from` on write, if it is at most
/// `max`.
fn parse_digits(cs: &Vec<char>, from: usize, max: u64) -> (r: Option<u64>)
    requires
        from <= cs@.len(),
    ensures
        r == (if from < cs@.len() && all_digits(cs@.skip(from as int)) && digits_value(
            cs@.skip(from as int),
        ) <= max {
            Some(digits_value(cs@.skip(from as int)) as u64)
        } else {
            None
        }),
{
    let ghost d = cs@.skip(from as int);
    if from == cs.len() {
        return None;
    }
    let mut value: u64 = 0;
    let mut i: usize = from;
    assert(d.take(0).len() == 0);
    while i < cs.len()
        invariant
            from <= i <= cs@.len(),
            d == cs@.skip(from as int),
            forall|j: int| 0 <= j < i - from ==> is_digit(#[trigger] d[j]),
            value == digits_value(d.take(i - from)),
            value <= max,
        decreases cs@.len() - i,
    {
        let c = cs[i];
        assert(d[i - from] == c);
        if !('0' <= c && c <= '9') {
            return None;
        }
        let digit: u64 = (c as u32 - '0' as u32) as u64;
        proof {
            let n = i - from;
            assert(d.take(n + 1).drop_last() =~= d.take(n));
            assert(d.take(n + 1).last() == c);
            assert(digits_value(d.take(n + 1)) == value * 10 + digit);
            if all_digits(d) {
                lemma_digits_grow(d, n + 1);
            }
        }
        match value.checked_mul(10) {
            Some(shifted) => match shifted.checked_add(digit) {
                Some(next) => {
                    if next > max {
                        return None;
                    }
                    value = next;
                },
                None => {
                    return None;
                },
            },
            None => {
                return None;
            },
        }
        i += 1;
    }
    assert(d.take(i - from) =~= d);
    Some(value)
}

/// The `u32` that `s` writes in ASCII digits, with no sign.
pub fn parse_u32_digits(cs: &Vec<char>, from: usize) -> (r: Option<u32>)
    requires
        from <= cs@.len(),
    ensures
        r == (if from < cs@.len() && all_digits(cs@.skip(from as int)) && digits_value(
            cs@.skip(from as int),
        ) <= u32::MAX {
            Some(digits_value(cs@.skip(from as int)) as u32)
        } else {
            None
        }),
{
    match parse_digits(cs, from, u32::MAX as u64) {
        Some(v) => Some(v as u32),
        None => None,
    }
}

/// The `usize` that the characters `cs` write.
pub fn parse_usize_chars(cs: &Vec<char>) -> (r: Option<usize>)
    ensures
        match r {
            Some(v) => parse_spec(cs@, usize::MAX as nat) == Some(v as nat),
            None => parse_spec(cs@, usize::MAX as nat) is None,
        },
{
    let from: usize = if cs.len() > 0 && cs[0] == '+' { 1 } else { 0 };
    assert(cs@.skip(from as int) =~= without_plus(cs@));
    match parse_digits(cs, from, usize::MAX as u64) {
        Some(v) => Some(v as usize),
        None => None,
    }
}

/// The `usize` that `s` writes.
pub fn parse_usize(s: &str) -> (r: Option<usize>)
    ensures
        match r {
            Some(v) => parse_spec(s@, usize::MAX as nat) == Some(v as nat),
            None => parse_spec(s@, usize::MAX as nat) is None,
        },
{
    let cs = chars_of(s);
    parse_usize_chars(&cs)
}

/// The digit of value `d`.
pub open spec fn digit_char(d: nat) -> char {
    ('0' as u32 + d) as char
}

/// `n` in base ten, with no leading zero.
pub open spec fn decimal(n: nat) -> Seq<char>
    decreases n,
{
    if n < 10 {
        seq![digit_char(n)]
    } else {
        decimal(n / 10) + seq![digit_char(n % 10)]
    }
}

fn digit_str(d: usize) -> (r: &'static str)
    requires
        d < 10,
    ensures
        r@ == seq![digit_char(d as nat)],
{
    proof {
        reveal_strlit("0");
        reveal_strlit("1");
        reveal_strlit("2");
        reveal_strlit("3");
        reveal_strlit("4");
        reveal_strlit("5");
        reveal_strlit("6");
        reveal_strlit("7");
        reveal_strlit("8");
        reveal_strlit("9");
    }
    let r = if d == 0 {
        "0"
    } else if d == 1 {
        "1"
    } else if d == 2 {
        "2"
    } else if d == 3 {
        "3"
    } else if d == 4 {
        "4"
    } else if d == 5 {
        "5"
    } else if d == 6 {
        "6"
    } else if d == 7 {
        "7"
    } else if d == 8 {
        "8"
    } else {
        "9"
    };
    assert(r@ =~= seq![digit_char(d as nat)]);
    r
}

/// `n` in base ten.
pub fn decimal_text(n: usize) -> (r: String)
    ensures
        r@ == decimal(n as nat),
    decreases n,
{
    if n < 10 {
        digit_str(n).to_owned()
    } else {
        let mut r = decimal_text(n / 10);
        r.append(digit_str(n % 10));
        r
    }
}

/// Writing a number in base ten and reading it back gives the number.
pub proof fn law_decimal_round_trip(n: nat)
    ensures
        decimal(n).len() > 0,
        all_digits(decimal(n)),
        digits_value(decimal(n)) == n,
        forall|max: nat| n <= max ==> #[trigger] parse_spec(decimal(n), max) == Some(n),
    decreases n,
{
    let d = decimal(n);
    if n < 10 {
        assert(d.drop_last() =~= Seq::<char>::empty());
        assert(digits_value(d.drop_last()) == 0);
    } else {
        law_decimal_round_trip(n / 10);
        assert(d.drop_last() =~= decimal(n / 10));
        assert(d.last() == digit_char(n % 10));
    }
    assert(is_digit(d[0]));
    assert(without_plus(d) == d);
}

// ── the order of strings ───────────────────────────────────────────────────

/// `a` comes before `b` in the lexicographic order of their characters.
pub open spec fn before(a: Seq<char>, b: Seq<char>) -> bool
    decreases a.len(),
{
    if b.len() == 0 {
        false
    } else if a.len() == 0 {
        true
    } else if a[0] != b[0] {
        a[0] < b[0]
    } else {
        before(a.drop_first(), b.drop_first())
    }
}

/// Whether `a` comes before `b`.
pub fn precedes(a: &str, b: &str) -> (r: bool)
    ensures
        r == before(a@, b@),
{
    let ca = chars_of(a);
    let cb = chars_of(b);
    let mut i: usize = 0;
    assert(ca@.skip(0) =~= ca@);
    assert(cb@.skip(0) =~= cb@);
    while i < ca.len() && i < cb.len()
        invariant
            ca@ == a@,
            cb@ == b@,
            i <= ca@.len(),
            i <= cb@.len(),
            before(ca@, cb@) == before(ca@.skip(i as int), cb@.skip(i as int)),
        decreases ca@.len() - i,
    {
        if ca[i] != cb[i] {
            return ca[i] < cb[i];
        }
        assert(ca@.skip(i as int).drop_first() =~= ca@.skip(i + 1));
        assert(cb@.skip(i as int).drop_first() =~= cb@.skip(i + 1));
        i += 1;
    }
    i < cb.len()
}

/// Of two different texts one comes before the other, never both, and no text
/// comes before itself.
pub proof fn law_before_total(a: Seq<char>, b: Seq<char>)
    ensures
        a == b ==> !before(a, b),
        a != b ==> before(a, b) != before(b, a),
    decreases a.len(),
{
    if a.len() > 0 && b.len() > 0 && a[0] == b[0] {
        law_before_total(a.drop_first(), b.drop_first());
        if a.drop_first() == b.drop_first() {
            assert(a =~= seq![a[0]] + a.drop_first());
            assert(b =~= seq![b[0]] + b.drop_first());
        }
    } else if a.len() == 0 && b.len() == 0 {
        assert(a =~= b);
    }
}

/// The order of texts is transitive.
pub proof fn law_before_transitive(a: Seq<char>, b: Seq<char>, c: Seq<char>)
    requires
        before(a, b),
        before(b, c),
    ensures
        before(a, c),
    decreases a.len(),
{
    if a.len() > 0 && b.len() > 0 && c.len() > 0 && a[0] == b[0] && b[0] == c[0] {
        law_before_transitive(a.drop_first(), b.drop_first(), c.drop_first());
    }
}

// ── what these functions are for ───────────────────────────────────────────

/// A text is found where it stands, whatever surrounds it.
pub proof fn law_found_where_it_stands(a: Seq<char>, pat: Seq<char>, b: Seq<char>)
    ensures
        contains_seq(a + pat + b, pat),
        starts_with_seq(pat + b, pat),
        ends_with_seq(a + pat, pat),
{
    let s = a + pat + b;
    assert(s.subrange(a.len() as int, (a.len() + pat.len()) as int) =~= pat);
    assert(occurs_at(s, pat, a.len() as int));
    assert((pat + b).subrange(0, pat.len() as int) =~= pat);
    assert((a + pat).subrange(a.len() as int, (a.len() + pat.len()) as int) =~= pat);
}

/// What is found is there: the text can be parted around it.
pub proof fn law_found_is_there(s: Seq<char>, pat: Seq<char>)
    ensures
        contains_seq(s, pat) ==> exists|a: Seq<char>, b: Seq<char>| s == #[trigger] (a + pat + b),
        starts_with_seq(s, pat) ==> exists|b: Seq<char>| s == #[trigger] (pat + b),
        ends_with_seq(s, pat) ==> exists|a: Seq<char>| s == #[trigger] (a + pat),
{
    if contains_seq(s, pat) {
        let at = choose|at: int| #[trigger] occurs_at(s, pat, at);
        let a = s.take(at);
        let b = s.skip(at + pat.len());
        assert(s =~= a + s.subrange(at, at + pat.len()) + b);
        assert(s == a + pat + b);
    }
    if starts_with_seq(s, pat) {
        let b = s.skip(pat.len() as int);
        assert(s =~= s.subrange(0, pat.len() as int) + b);
        assert(s == pat + b);
    }
    if ends_with_seq(s, pat) {
        let n = s.len() - pat.len();
        let a = s.take(n);
        assert(s =~= a + s.subrange(n, s.len() as int));
        assert(s == a + pat);
    }
}

/// Where a text that is found begins.
pub(crate) proof fn lemma_found_at(s: Seq<char>, pat: Seq<char>) -> (at: int)
    requires
        contains_seq(s, pat),
    ensures
        0 <= at,
        at + pat.len() <= s.len(),
        forall|j: int| 0 <= j < pat.len() ==> s[at + j] == #[trigger] pat[j],
{
    let at = choose|at: int| #[trigger] occurs_at(s, pat, at);
    let sub = s.subrange(at, at + pat.len());
    assert forall|j: int| 0 <= j < pat.len() implies s[at + j] == #[trigger] pat[j] by {
        assert(sub[j] == s[at + j]);
    }
    at
}

/// Skipping as many characters as a beginning has leaves the rest; skipping more
/// than there are leaves nothing.
pub proof fn law_skip_leaves_the_rest(a: Seq<char>, b: Seq<char>, more: nat)
    ensures
        skip_chars(a + b, a.len()) == b,
        more > 0 ==> skip_chars(a, a.len() + more) == Seq::<char>::empty(),
{
    assert((a + b).skip(a.len() as int) =~= b);
}

/// Small letters: the 26 ASCII capitals move by 32, every other character stays,
/// none is lost, and a second time nothing changes.
pub proof fn law_small_letters(s: Seq<char>, i: int)
    requires
        0 <= i < s.len(),
    ensures
        lower_seq(s).len() == s.len(),
        65 <= s[i] as int <= 90 ==> lower_seq(s)[i] as int == s[i] as int + 32,
        !(65 <= s[i] as int <= 90) ==> lower_seq(s)[i] == s[i],
        lower_seq(lower_seq(s)) == lower_seq(s),
{
    assert(lower_seq(lower_seq(s)) =~= lower_seq(s));
}

/// White space is the 25 characters that Unicode lists.
pub proof fn law_white_space(c: char)
    ensures
        is_white(c) <==> seq![
            9int, 10, 11, 12, 13, 32, 133, 160, 5760, 8192, 8193, 8194, 8195, 8196, 8197, 8198,
            8199, 8200, 8201, 8202, 8232, 8233, 8239, 8287, 12288,
        ].contains(c as int),
{
    let l = seq![
        9int, 10, 11, 12, 13, 32, 133, 160, 5760, 8192, 8193, 8194, 8195, 8196, 8197, 8198,
        8199, 8200, 8201, 8202, 8232, 8233, 8239, 8287, 12288,
    ];
    let n = c as int;
    assert(l[0] == 9 && l[1] == 10 && l[2] == 11 && l[3] == 12 && l[4] == 13 && l[5] == 32 && l[6]
        == 133 && l[7] == 160 && l[8] == 5760);
    assert(l[9] == 8192 && l[10] == 8193 && l[11] == 8194 && l[12] == 8195 && l[13] == 8196 && l[14]
        == 8197 && l[15] == 8198 && l[16] == 8199 && l[17] == 8200 && l[18] == 8201 && l[19]
        == 8202);
    assert(l[20] == 8232 && l[21] == 8233 && l[22] == 8239 && l[23] == 8287 && l[24] == 12288);
    assert(l.len() == 25);
}

proof fn lemma_trim_start(s: Seq<char>) -> (n: int)
    ensures
        0 <= n <= s.len(),
        trim_start_seq(s) == s.skip(n),
        forall|i: int| 0 <= i < n ==> is_white(#[trigger] s[i]),
        n < s.len() ==> !is_white(s[n]),
    decreases s.len(),
{
    if s.len() > 0 && is_white(s.first()) {
        let m = lemma_trim_start(s.drop_first());
        assert(s.drop_first().skip(m) =~= s.skip(m + 1));
        assert forall|i: int| 0 <= i < m + 1 implies is_white(#[trigger] s[i]) by {
            if i > 0 {
                assert(s.drop_first()[i - 1] == s[i]);
            }
        }
        m + 1
    } else {
        assert(s.skip(0) =~= s);
        0
    }
}

proof fn lemma_trim_end(s: Seq<char>) -> (n: int)
    ensures
        0 <= n <= s.len(),
        trim_end_seq(s) == s.take(n),
        forall|i: int| n <= i < s.len() ==> is_white(#[trigger] s[i]),
        n > 0 ==> !is_white(s[n - 1]),
    decreases s.len(),
{
    if s.len() > 0 && is_white(s.last()) {
        let m = lemma_trim_end(s.drop_last());
        assert(s.drop_last().take(m) =~= s.take(m));
        assert forall|i: int| m <= i < s.len() implies is_white(#[trigger] s[i]) by {
            if i < s.len() - 1 {
                assert(s.drop_last()[i] == s[i]);
            }
        }
        m
    } else {
        assert(s.take(s.len() as int) =~= s);
        s.len() as int
    }
}

/// Trimming takes white space off both ends and nothing else: what is left
/// neither begins nor ends with any.
pub proof fn law_trim_takes_white_space_off(s: Seq<char>)
    ensures
        exists|a: Seq<char>, b: Seq<char>|
            {
                &&& s == #[trigger] (a + trim_seq(s) + b)
                &&& forall|i: int| 0 <= i < a.len() ==> is_white(#[trigger] a[i])
                &&& forall|i: int| 0 <= i < b.len() ==> is_white(#[trigger] b[i])
            },
        trim_seq(s).len() > 0 ==> !is_white(trim_seq(s).first()) && !is_white(trim_seq(s).last()),
{
    let n = lemma_trim_start(s);
    let rest = s.skip(n);
    let m = lemma_trim_end(rest);
    let a = s.take(n);
    let b = rest.skip(m);
    let t = rest.take(m);
    assert(trim_seq(s) == t);
    assert(s =~= a + t + b);
    assert forall|i: int| 0 <= i < a.len() implies is_white(#[trigger] a[i]) by {
        assert(a[i] == s[i]);
    }
    assert forall|i: int| 0 <= i < b.len() implies is_white(#[trigger] b[i]) by {
        assert(b[i] == rest[m + i]);
    }
    if t.len() > 0 {
        assert(t.first() == s[n]);
        assert(t.last() == rest[m - 1]);
    }
}

/// The leading digit counts as often as ten to the power of the number of digits
/// behind it.
pub proof fn law_leading_digit(c: char, s: Seq<char>)
    requires
        '0' <= c <= '9',
        all_digits(s),
    ensures
        digits_value(seq![c] + s) == (c as int - 48) * vstd::arithmetic::power::pow(10, s.len())
            + digits_value(s),
        digits_value(Seq::<char>::empty()) == 0,
    decreases s.len(),
{
    let all = seq![c] + s;
    let d = c as int - 48;
    reveal(vstd::arithmetic::power::pow);
    if s.len() == 0 {
        assert(all.drop_last() =~= Seq::<char>::empty());
        assert(all.last() == c);
        assert(digits_value(all) == digits_value(Seq::<char>::empty()) * 10 + d);
        assert(d * 1 == d);
    } else {
        assert(is_digit(s[s.len() - 1]));
        assert forall|i: int| 0 <= i < s.len() - 1 implies is_digit(
            #[trigger] s.drop_last()[i],
        ) by {
            assert(is_digit(s[i]));
        }
        law_leading_digit(c, s.drop_last());
        assert(all.drop_last() =~= seq![c] + s.drop_last());
        assert(all.last() == s.last());
        let p = vstd::arithmetic::power::pow(10, s.drop_last().len());
        assert(vstd::arithmetic::power::pow(10, s.len()) == 10 * p);
        assert((d * p) * 10 == d * (10 * p)) by (nonlinear_arith);
    }
}

/// A text is read as a number exactly where it is digits, one plus sign before
/// them or not, of a value within the limit.
pub proof fn law_numbers_are_digits(s: Seq<char>, max: nat)
    ensures
        s.len() > 0 && (forall|i: int| 0 <= i < s.len() ==> 48 <= #[trigger] s[i] as int <= 57) ==> {
            &&& parse_spec(s, max) == (if digits_value(s) <= max {
                Some(digits_value(s))
            } else {
                None
            })
            &&& parse_spec(seq!['+'] + s, max) == parse_spec(s, max)
        },
        parse_spec(s, max) is Some ==> forall|i: int|
            1 <= i < s.len() ==> 48 <= #[trigger] s[i] as int <= 57,
        parse_spec(s, max) is Some ==> s.len() > 0 && (s[0] == '+' && s.len() > 1 || 48
            <= s[0] as int <= 57),
{
    if s.len() > 0 && (forall|i: int| 0 <= i < s.len() ==> 48 <= #[trigger] s[i] as int <= 57) {
        assert(48 <= s[0] as int <= 57);
        assert(without_plus(s) == s);
        assert forall|i: int| 0 <= i < s.len() implies is_digit(#[trigger] s[i]) by {}
        assert((seq!['+'] + s).drop_first() =~= s);
    }
    if parse_spec(s, max) is Some {
        let d = without_plus(s);
        assert forall|i: int| 1 <= i < s.len() implies 48 <= #[trigger] s[i] as int <= 57 by {
            if s[0] == '+' {
                assert(d[i - 1] == s[i]);
            } else {
                assert(d[i] == s[i]);
            }
            assert(is_digit(s[i]));
        }
        if s.len() > 0 && s[0] == '+' {
            assert(d.len() == s.len() - 1);
        } else {
            assert(is_digit(d[0]));
        }
    }
}

/// The order of texts goes by the first character in which they differ; a
/// beginning comes before what goes on.
pub proof fn law_before_by_first_difference(
    p: Seq<char>,
    x: char,
    a: Seq<char>,
    y: char,
    b: Seq<char>,
)
    ensures
        x != y ==> before(p + seq![x] + a, p + seq![y] + b) == (x < y),
        before(p, p + b) == (b.len() > 0),
        !before(p + b, p),
    decreases p.len(),
{
    let l = p + seq![x] + a;
    let r = p + seq![y] + b;
    if p.len() > 0 {
        law_before_by_first_difference(p.drop_first(), x, a, y, b);
        assert(l.drop_first() =~= p.drop_first() + seq![x] + a);
        assert(r.drop_first() =~= p.drop_first() + seq![y] + b);
        assert((p + b).drop_first() =~= p.drop_first() + b);
        assert(l[0] == p[0] && r[0] == p[0] && (p + b)[0] == p[0]);
    } else {
        assert(l[0] == x && r[0] == y);
        assert(p + b =~= b);
    }
}

/// White space around a text that neither begins nor ends with any is all that
/// trimming takes off.
pub proof fn law_trim_of_padded(a: Seq<char>, core: Seq<char>, b: Seq<char>)
    requires
        forall|i: int| 0 <= i < a.len() ==> is_white(#[trigger] a[i]),
        forall|i: int| 0 <= i < b.len() ==> is_white(#[trigger] b[i]),
        core.len() > 0 ==> !is_white(core.first()) && !is_white(core.last()),
    ensures
        trim_seq(a + core + b) == core,
{
    let s = a + core + b;
    let n = lemma_trim_start(s);
    let rest = s.skip(n);
    let m = lemma_trim_end(rest);
    if core.len() > 0 {
        assert(s[a.len() as int] == core.first());
        if n < a.len() {
            assert(s[n] == a[n]);
        }
        assert(n == a.len());
        assert(rest =~= core + b);
        assert(rest[core.len() - 1] == core.last());
        if m > core.len() {
            assert(rest[m - 1] == b[m - 1 - core.len()]);
        }
        assert(m == core.len());
        assert(rest.take(m) =~= core);
    } else {
        if n < s.len() {
            if n < a.len() {
                assert(s[n] == a[n]);
            } else {
                assert(s[n] == b[n - a.len()]);
            }
        }
        assert(rest.take(m) =~= core);
    }
}

/// A number is written without zeros in front of it.
pub proof fn law_no_zeros_in_front(n: nat)
    ensures
        decimal(n)[0] == '0' ==> n == 0,
        n < 10 ==> decimal(n).len() == 1,
        n >= 10 ==> decimal(n).drop_last() == decimal(n / 10),
    decreases n,
{
    law_decimal_round_trip(n);
    if n >= 10 {
        law_no_zeros_in_front(n / 10);
        law_decimal_round_trip(n / 10);
        assert(decimal(n).drop_last() =~= decimal(n / 10));
        assert(decimal(n)[0] == decimal(n / 10)[0]);
    } else {
        assert(decimal(n).drop_last() =~= Seq::<char>::empty());
        assert(digits_value(decimal(n).drop_last()) == 0);
    }
}

} // verus!
