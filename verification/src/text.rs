//! Character-level text handling: ASCII case, trimming, splitting, numbers.
//!
//! Every function works on the characters of a string, and its contract is
//! stated over the `Seq<char>` views of its arguments.

use vstd::prelude::*;

verus! {

/// `String::push` appends one character and changes nothing else.
pub assume_specification[ String::push ](s: &mut String, c: char)
    ensures
        final(s)@ == old(s)@.push(c),
;

/// The character sequences of a sequence of strings.
pub open spec fn views(v: Seq<String>) -> Seq<Seq<char>> {
    v.map_values(|s: String| s@)
}

/// The same texts again.
pub fn clone_texts(v: &Vec<String>) -> (r: Vec<String>)
    ensures
        views(r@) == views(v@),
{
    let mut r: Vec<String> = Vec::new();
    for i in 0..v.len()
        invariant
            views(r@) == views(v@).take(i as int),
    {
        let ghost before = views(r@);
        r.push(v[i].clone());
        proof {
            assert(views(r@) == before.push(v@[i as int]@));
            assert(views(v@).take(i + 1) == views(v@).take(i as int).push(v@[i as int]@));
        }
    }
    proof {
        assert(views(v@).take(v@.len() as int) == views(v@));
    }
    r
}

/// The characters of `s`, in order.
pub fn chars_of(s: &str) -> (v: Vec<char>)
    ensures
        v@ == s@,
{
    let mut v: Vec<char> = Vec::new();
    for c in it: s.chars()
        invariant
            v@ == s@.take(it.index()),
            it.seq() == s@,
    {
        proof {
            assert(s@.take(it.index() + 1) == s@.take(it.index()).push(c));
        }
        v.push(c);
    }
    v
}

/// The string made of the characters of `v` from `from` up to, not including, `to`.
pub fn substring(v: &Vec<char>, from: usize, to: usize) -> (s: String)
    requires
        from <= to <= v@.len(),
    ensures
        s@ == v@.subrange(from as int, to as int),
{
    let mut s: String = String::new();
    let mut i: usize = from;
    while i < to
        invariant
            from <= i <= to <= v@.len(),
            s@ == v@.subrange(from as int, i as int),
        decreases to - i,
    {
        proof {
            assert(v@.subrange(from as int, i + 1) == v@.subrange(from as int, i as int).push(
                v@[i as int],
            ));
        }
        s.push(v[i]);
        i = i + 1;
    }
    s
}

/// Whether two string slices hold the same characters.
pub fn same(a: &str, b: &str) -> (r: bool)
    ensures
        r == (a@ == b@),
{
    a.to_owned() == b.to_owned()
}

/// Whether two lists of texts are the same.
pub fn same_texts(a: &Vec<String>, b: &Vec<String>) -> (r: bool)
    ensures
        r == (views(a@) == views(b@)),
{
    if a.len() != b.len() {
        assert(views(a@).len() != views(b@).len());
        return false;
    }
    for i in 0..a.len()
        invariant
            a@.len() == b@.len(),
            forall|j: int| 0 <= j < i ==> (#[trigger] a@[j])@ == b@[j]@,
    {
        if !same(a[i].as_str(), b[i].as_str()) {
            assert(views(a@)[i as int] != views(b@)[i as int]);
            return false;
        }
    }
    assert(views(a@) =~= views(b@));
    true
}

/// `a` followed by `b`.
pub fn join(a: &str, b: &str) -> (r: String)
    ensures
        r@ == a@ + b@,
{
    let mut r = a.to_owned();
    r.append(b);
    r
}

/// `a`, `b` and `c`, one after the other.
pub fn join3(a: &str, b: &str, c: &str) -> (r: String)
    ensures
        r@ == a@ + b@ + c@,
{
    let mut r = join(a, b);
    r.append(c);
    r
}

// ── ASCII case ──────────────────────────────────────────────────────────────

/// An ASCII capital letter becomes its small letter; anything else stays.
pub open spec fn lower_char(c: char) -> char {
    if 'A' <= c <= 'Z' {
        (c as u8 + 32) as char
    } else {
        c
    }
}

/// An ASCII small letter becomes its capital letter; anything else stays.
pub open spec fn upper_char(c: char) -> char {
    if 'a' <= c <= 'z' {
        (c as u8 - 32) as char
    } else {
        c
    }
}

/// `s` with its ASCII capital letters made small.
pub open spec fn lower(s: Seq<char>) -> Seq<char> {
    s.map_values(|c: char| lower_char(c))
}

/// `s` with its ASCII small letters made capital.
pub open spec fn upper(s: Seq<char>) -> Seq<char> {
    s.map_values(|c: char| upper_char(c))
}

pub fn char_to_lower(c: char) -> (r: char)
    ensures
        r == lower_char(c),
{
    if 'A' <= c && c <= 'Z' {
        ((c as u8) + 32) as char
    } else {
        c
    }
}

pub fn char_to_upper(c: char) -> (r: char)
    ensures
        r == upper_char(c),
{
    if 'a' <= c && c <= 'z' {
        ((c as u8) - 32) as char
    } else {
        c
    }
}

pub fn to_lower(s: &str) -> (r: String)
    ensures
        r@ == lower(s@),
{
    let mut r: String = String::new();
    for c in it: s.chars()
        invariant
            it.seq() == s@,
            r@ == lower(s@.take(it.index())),
    {
        proof {
            assert(lower(s@.take(it.index() + 1)) == lower(s@.take(it.index())).push(
                lower_char(c),
            ));
        }
        r.push(char_to_lower(c));
    }
    proof {
        assert(s@.take(s@.len() as int) == s@);
    }
    r
}

pub fn to_upper(s: &str) -> (r: String)
    ensures
        r@ == upper(s@),
{
    let mut r: String = String::new();
    for c in it: s.chars()
        invariant
            it.seq() == s@,
            r@ == upper(s@.take(it.index())),
    {
        proof {
            assert(upper(s@.take(it.index() + 1)) == upper(s@.take(it.index())).push(
                upper_char(c),
            ));
        }
        r.push(char_to_upper(c));
    }
    proof {
        assert(s@.take(s@.len() as int) == s@);
    }
    r
}

/// Whether `a` and `b` agree once ASCII case is ignored.
pub fn eq_ignore_case(a: &str, b: &str) -> (r: bool)
    ensures
        r == (lower(a@) == lower(b@)),
{
    to_lower(a) == to_lower(b)
}

// ── Searching ───────────────────────────────────────────────────────────────

/// Whether `needle` stands in `s` at position `i`.
pub open spec fn occurs_at(s: Seq<char>, needle: Seq<char>, i: int) -> bool {
    &&& 0 <= i
    &&& i + needle.len() <= s.len()
    &&& s.subrange(i, i + needle.len()) == needle
}

/// Whether `needle` stands in `s` at some position.
pub open spec fn has_substring(s: Seq<char>, needle: Seq<char>) -> bool {
    exists|i: int| #[trigger] occurs_at(s, needle, i)
}

/// Whether `prefix` stands at the front of `s`.
pub open spec fn has_prefix(s: Seq<char>, prefix: Seq<char>) -> bool {
    occurs_at(s, prefix, 0)
}

fn matches_at(s: &Vec<char>, needle: &Vec<char>, at: usize) -> (r: bool)
    requires
        at + needle@.len() <= s@.len(),
    ensures
        r == occurs_at(s@, needle@, at as int),
{
    let n: usize = s.len();
    let mut k: usize = 0;
    while k < needle.len()
        invariant
            k <= needle@.len(),
            at + needle@.len() <= s@.len(),
            n == s@.len(),
            forall|j: int| 0 <= j < k ==> s@[at + j] == needle@[j],
        decreases needle@.len() - k,
    {
        if s[at + k] != needle[k] {
            proof {
                assert(s@.subrange(at as int, at + needle@.len())[k as int] != needle@[k as int]);
            }
            return false;
        }
        k = k + 1;
    }
    proof {
        assert(s@.subrange(at as int, at + needle@.len()) == needle@);
    }
    true
}

/// Whether `needle` occurs anywhere in `s`.
pub fn contains(s: &str, needle: &str) -> (r: bool)
    ensures
        r == has_substring(s@, needle@),
{
    let hay = chars_of(s);
    let pat = chars_of(needle);
    if pat.len() > hay.len() {
        return false;
    }
    let last: usize = hay.len() - pat.len();
    let mut i: usize = 0;
    loop
        invariant
            hay@ == s@,
            pat@ == needle@,
            last + pat@.len() == hay@.len(),
            i <= last,
            forall|j: int| 0 <= j < i ==> !#[trigger] occurs_at(s@, needle@, j),
        decreases last - i,
    {
        if matches_at(&hay, &pat, i) {
            return true;
        }
        if i == last {
            return false;
        }
        i = i + 1;
    }
}

/// What follows `prefix` in `s`, if `s` starts with it.
pub fn strip_prefix(s: &str, prefix: &str) -> (r: Option<String>)
    ensures
        match r {
            Some(rest) => has_prefix(s@, prefix@) && rest@ == s@.skip(prefix@.len() as int),
            None => !has_prefix(s@, prefix@),
        },
{
    let hay = chars_of(s);
    let pat = chars_of(prefix);
    if pat.len() <= hay.len() && matches_at(&hay, &pat, 0) {
        Some(substring(&hay, pat.len(), hay.len()))
    } else {
        None
    }
}

// ── White space ─────────────────────────────────────────────────────────────

/// The characters with the Unicode property White_Space.
pub open spec fn is_space(c: char) -> bool {
    ||| '\u{9}' <= c <= '\u{d}'
    ||| c == '\u{20}'
    ||| c == '\u{85}'
    ||| c == '\u{a0}'
    ||| c == '\u{1680}'
    ||| '\u{2000}' <= c <= '\u{200a}'
    ||| c == '\u{2028}'
    ||| c == '\u{2029}'
    ||| c == '\u{202f}'
    ||| c == '\u{205f}'
    ||| c == '\u{3000}'
}

fn char_is_space(c: char) -> (r: bool)
    ensures
        r == is_space(c),
{
    ('\u{9}' <= c && c <= '\u{d}') || c == '\u{20}' || c == '\u{85}' || c == '\u{a0}' || c
        == '\u{1680}' || ('\u{2000}' <= c && c <= '\u{200a}') || c == '\u{2028}' || c == '\u{2029}'
        || c == '\u{202f}' || c == '\u{205f}' || c == '\u{3000}'
}

/// `s` without the white space at its front.
pub open spec fn trim_start(s: Seq<char>) -> Seq<char>
    decreases s.len(),
{
    if s.len() > 0 && is_space(s[0]) {
        trim_start(s.skip(1))
    } else {
        s
    }
}

/// `s` without the white space at its end.
pub open spec fn trim_end(s: Seq<char>) -> Seq<char>
    decreases s.len(),
{
    if s.len() > 0 && is_space(s.last()) {
        trim_end(s.drop_last())
    } else {
        s
    }
}

/// `s` without the white space at either end.
pub open spec fn trimmed(s: Seq<char>) -> Seq<char> {
    trim_end(trim_start(s))
}

pub fn trim(s: &str) -> (r: String)
    ensures
        r@ == trimmed(s@),
{
    let cs = chars_of(s);
    let n: usize = cs.len();
    let mut i: usize = 0;
    proof {
        assert(s@.skip(0) == s@);
    }
    while i < n && char_is_space(cs[i])
        invariant
            cs@ == s@,
            n == cs@.len(),
            i <= n,
            trim_start(s@) == trim_start(s@.skip(i as int)),
        decreases n - i,
    {
        proof {
            assert(s@.skip(i as int).skip(1) == s@.skip(i + 1));
        }
        i = i + 1;
    }
    let mut j: usize = n;
    proof {
        assert(trim_start(s@) == s@.skip(i as int));
        assert(s@.subrange(i as int, n as int) == s@.skip(i as int));
    }
    while i < j && char_is_space(cs[j - 1])
        invariant
            cs@ == s@,
            n == cs@.len(),
            i <= j <= n,
            trim_end(trim_start(s@)) == trim_end(s@.subrange(i as int, j as int)),
        decreases j,
    {
        proof {
            assert(s@.subrange(i as int, j as int).drop_last() == s@.subrange(i as int, j - 1));
        }
        j = j - 1;
    }
    substring(&cs, i, j)
}

/// The pieces of `s` between its occurrences of `sep`; always at least one.
pub open spec fn pieces(s: Seq<char>, sep: char) -> Seq<Seq<char>>
    decreases s.len(),
{
    if s.len() == 0 {
        seq![Seq::<char>::empty()]
    } else {
        let before = pieces(s.drop_last(), sep);
        if s.last() == sep {
            before.push(Seq::empty())
        } else {
            before.drop_last().push(before.last().push(s.last()))
        }
    }
}

pub proof fn lemma_pieces_nonempty(s: Seq<char>, sep: char)
    ensures
        pieces(s, sep).len() > 0,
    decreases s.len(),
{
    if s.len() > 0 {
        lemma_pieces_nonempty(s.drop_last(), sep);
    }
}

/// Cut `s` at every `sep`.
pub fn split(s: &str, sep: char) -> (r: Vec<String>)
    ensures
        views(r@) == pieces(s@, sep),
{
    let mut done: Vec<String> = Vec::new();
    let mut piece: String = String::new();
    proof {
        assert(views(done@).push(piece@) == pieces(s@.take(0), sep));
    }
    for c in it: s.chars()
        invariant
            it.seq() == s@,
            views(done@).push(piece@) == pieces(s@.take(it.index()), sep),
    {
        proof {
            let k = it.index();
            assert(s@.take(k + 1).drop_last() == s@.take(k));
            assert(s@.take(k + 1).last() == c);
            assert(views(done@).push(piece@).drop_last() == views(done@));
        }
        if c == sep {
            let ghost before = done@;
            let ghost last = piece@;
            done.push(piece);
            proof {
                assert(views(done@) == views(before).push(last));
            }
            piece = String::new();
        } else {
            piece.push(c);
        }
    }
    let ghost before = done@;
    let ghost last = piece@;
    done.push(piece);
    proof {
        assert(views(done@) == views(before).push(last));
        assert(s@.take(s@.len() as int) == s@);
    }
    done
}

/// The maximal runs of characters of `s` that are not white space.
pub open spec fn words(s: Seq<char>) -> Seq<Seq<char>>
    decreases s.len(),
{
    if s.len() == 0 {
        Seq::empty()
    } else {
        let before = words(s.drop_last());
        if is_space(s.last()) {
            before
        } else if s.len() > 1 && !is_space(s[s.len() - 2]) {
            before.drop_last().push(before.last().push(s.last()))
        } else {
            before.push(seq![s.last()])
        }
    }
}

/// Cut `s` into its words.
pub fn split_words(s: &str) -> (r: Vec<String>)
    ensures
        views(r@) == words(s@),
{
    let mut done: Vec<String> = Vec::new();
    let mut word: String = String::new();
    let mut in_word: bool = false;
    for c in it: s.chars()
        invariant
            it.seq() == s@,
            in_word == (it.index() > 0 && !is_space(s@[it.index() - 1])),
            !in_word ==> word@ == Seq::<char>::empty(),
            words(s@.take(it.index())) == if in_word {
                views(done@).push(word@)
            } else {
                views(done@)
            },
    {
        let ghost k = it.index();
        proof {
            assert(s@.take(k + 1).drop_last() == s@.take(k));
            assert(s@.take(k + 1).last() == c);
            assert(views(done@).push(word@).drop_last() == views(done@));
        }
        if char_is_space(c) {
            if in_word {
                let ghost before = done@;
                let ghost last = word@;
                done.push(word);
                proof {
                    assert(views(done@) == views(before).push(last));
                }
                word = String::new();
            }
            in_word = false;
        } else {
            proof {
                assert(seq![c] == Seq::<char>::empty().push(c));
            }
            word.push(c);
            in_word = true;
        }
    }
    proof {
        assert(s@.take(s@.len() as int) == s@);
    }
    if in_word {
        let ghost before = done@;
        let ghost last = word@;
        done.push(word);
        proof {
            assert(views(done@) == views(before).push(last));
        }
    }
    done
}

// ── Numbers ─────────────────────────────────────────────────────────────────

pub open spec fn is_digit(c: char) -> bool {
    '0' <= c <= '9'
}

/// The number that a run of decimal digits denotes.
pub open spec fn digits_value(s: Seq<char>) -> nat
    decreases s.len(),
{
    if s.len() == 0 {
        0
    } else {
        10 * digits_value(s.drop_last()) + (s.last() as u8 - '0' as u8) as nat
    }
}

/// The digits of an unsigned number: `s` without the plus sign it may start with.
pub open spec fn unsigned_part(s: Seq<char>) -> Seq<char> {
    if s.len() > 0 && s[0] == '+' {
        s.skip(1)
    } else {
        s
    }
}

/// The number that `s` spells: an optional plus sign, then one or more decimal
/// digits, in the range of `u64`.
pub open spec fn parsed_u64(s: Seq<char>) -> Option<u64> {
    let d = unsigned_part(s);
    if d.len() > 0 && (forall|i: int| 0 <= i < d.len() ==> is_digit(#[trigger] d[i]))
        && digits_value(d) <= u64::MAX {
        Some(digits_value(d) as u64)
    } else {
        None
    }
}

proof fn lemma_digits_value_grows(s: Seq<char>, k: int)
    requires
        0 <= k <= s.len(),
    ensures
        digits_value(s.take(k)) <= digits_value(s),
    decreases s.len() - k,
{
    if k < s.len() {
        assert(s.take(k + 1).drop_last() == s.take(k));
        lemma_digits_value_grows(s, k + 1);
    } else {
        assert(s.take(k) == s);
    }
}

pub fn parse_u64(s: &str) -> (r: Option<u64>)
    ensures
        r == parsed_u64(s@),
{
    let cs = chars_of(s);
    let start: usize = if cs.len() > 0 && cs[0] == '+' {
        1
    } else {
        0
    };
    let ghost d = unsigned_part(s@);
    proof {
        assert(d == s@.skip(start as int));
    }
    if start == cs.len() {
        return None;
    }
    let mut value: u64 = 0;
    let mut i: usize = start;
    while i < cs.len()
        invariant
            cs@ == s@,
            d == s@.skip(start as int),
            d == unsigned_part(s@),
            start <= i <= cs@.len(),
            forall|j: int| 0 <= j < i - start ==> is_digit(#[trigger] d[j]),
            value == digits_value(d.take(i - start)),
        decreases cs@.len() - i,
    {
        let c = cs[i];
        proof {
            assert(d[i - start] == c);
            assert(d.take(i - start + 1).drop_last() == d.take(i - start));
            lemma_digits_value_grows(d, i - start + 1);
        }
        if !('0' <= c && c <= '9') {
            return None;
        }
        let digit: u64 = (c as u8 - '0' as u8) as u64;
        let shifted: u64 = match value.checked_mul(10) {
            Some(v) => v,
            None => {
                return None;
            },
        };
        value = match shifted.checked_add(digit) {
            Some(v) => v,
            None => {
                return None;
            },
        };
        i = i + 1;
    }
    proof {
        assert(d.take(d.len() as int) == d);
    }
    Some(value)
}

/// The decimal digit `d`.
pub open spec fn digit_char(d: nat) -> char {
    ('0' as u8 + d) as char
}

/// The decimal digits of `n`, most significant first, without leading zeros.
pub open spec fn decimal_text(n: nat) -> Seq<char>
    decreases n,
{
    if n < 10 {
        seq![digit_char(n)]
    } else {
        decimal_text(n / 10).push(digit_char(n % 10))
    }
}

pub fn decimal(n: u64) -> (r: String)
    ensures
        r@ == decimal_text(n as nat),
    decreases n,
{
    let digit: char = ('0' as u8 + (n % 10) as u8) as char;
    if n < 10 {
        let mut r: String = String::new();
        r.push(digit);
        proof {
            assert(r@ == seq![digit_char(n as nat)]);
        }
        r
    } else {
        let mut r = decimal(n / 10);
        r.push(digit);
        r
    }
}

/// The hexadecimal digit `d`, in small letters.
pub open spec fn hex_char(d: nat) -> char {
    if d < 10 {
        ('0' as u8 + d) as char
    } else {
        ('a' as u8 + (d - 10)) as char
    }
}

/// The last `width` hexadecimal digits of `n`.
pub open spec fn hex_text(n: nat, width: nat) -> Seq<char>
    decreases width,
{
    if width == 0 {
        Seq::empty()
    } else {
        hex_text(n / 16, (width - 1) as nat).push(hex_char(n % 16))
    }
}

/// The last `width` hexadecimal digits of `n`, padded with zeros.
pub fn hex(n: u64, width: u32) -> (r: String)
    ensures
        r@ == hex_text(n as nat, width as nat),
    decreases width,
{
    if width == 0 {
        String::new()
    } else {
        let d: u8 = (n % 16) as u8;
        let digit: char = if d < 10 {
            ('0' as u8 + d) as char
        } else {
            ('a' as u8 + (d - 10)) as char
        };
        let mut r = hex(n / 16, width - 1);
        r.push(digit);
        r
    }
}

/// Some bytes in hexadecimal digits, two for each.
pub open spec fn hex_bytes_text(bytes: Seq<u8>) -> Seq<char>
    decreases bytes.len(),
{
    if bytes.len() == 0 {
        Seq::empty()
    } else {
        hex_bytes_text(bytes.drop_last()) + hex_text(bytes.last() as nat, 2)
    }
}

pub fn hex_bytes(bytes: &[u8]) -> (r: String)
    ensures
        r@ == hex_bytes_text(bytes@),
{
    let mut r: String = String::new();
    proof {
        assert(r@ == hex_bytes_text(bytes@.take(0)));
    }
    for i in 0..bytes.len()
        invariant
            r@ == hex_bytes_text(bytes@.take(i as int)),
    {
        let digits = hex(bytes[i] as u64, 2);
        r.append(digits.as_str());
        proof {
            assert(bytes@.take(i + 1).drop_last() == bytes@.take(i as int));
        }
    }
    proof {
        assert(bytes@.take(bytes@.len() as int) == bytes@);
    }
    r
}

// ── Laws ────────────────────────────────────────────────────────────────────

/// Only the 26 capital letters of ASCII change when letters are made small, each to the
/// letter 32 places further on, and the other way round.
pub proof fn law_case_is_ascii(s: Seq<char>, i: int)
    requires
        0 <= i < s.len(),
    ensures
        lower(s).len() == s.len(),
        upper(s).len() == s.len(),
        65 <= s[i] as u32 <= 90 ==> lower(s)[i] as u32 == s[i] as u32 + 32,
        !(65 <= s[i] as u32 <= 90) ==> lower(s)[i] == s[i],
        97 <= s[i] as u32 <= 122 ==> upper(s)[i] as u32 == s[i] as u32 - 32,
        !(97 <= s[i] as u32 <= 122) ==> upper(s)[i] == s[i],
{
}

/// Making letters small twice changes no more than doing it once.
pub proof fn law_lower_twice(s: Seq<char>)
    ensures
        lower(lower(s)) == lower(s),
        upper(lower(s)) == upper(s),
{
    assert forall|i: int| 0 <= i < s.len() implies #[trigger] lower(lower(s))[i] == lower(s)[i] by {
        law_case_is_ascii(s, i);
    }
    assert forall|i: int| 0 <= i < s.len() implies #[trigger] upper(lower(s))[i] == upper(s)[i] by {
        law_case_is_ascii(s, i);
    }
}

proof fn lemma_trim_start(s: Seq<char>) -> (n: int)
    ensures
        0 <= n <= s.len(),
        trim_start(s) == s.skip(n),
        forall|i: int| 0 <= i < n ==> is_space(#[trigger] s[i]),
        n < s.len() ==> !is_space(s[n]),
    decreases s.len(),
{
    if s.len() > 0 && is_space(s[0]) {
        let m = lemma_trim_start(s.skip(1));
        assert(s.skip(1).skip(m) == s.skip(m + 1));
        assert forall|i: int| 0 <= i < m + 1 implies is_space(#[trigger] s[i]) by {
            if i > 0 {
                assert(s.skip(1)[i - 1] == s[i]);
            }
        }
        m + 1
    } else {
        assert(s.skip(0) == s);
        0
    }
}

proof fn lemma_trim_end(s: Seq<char>) -> (n: int)
    ensures
        0 <= n <= s.len(),
        trim_end(s) == s.take(n),
        forall|i: int| n <= i < s.len() ==> is_space(#[trigger] s[i]),
        n > 0 ==> !is_space(s[n - 1]),
    decreases s.len(),
{
    if s.len() > 0 && is_space(s.last()) {
        let n = lemma_trim_end(s.drop_last());
        assert(s.drop_last().take(n) == s.take(n));
        assert forall|i: int| n <= i < s.len() implies is_space(#[trigger] s[i]) by {
            if i < s.len() - 1 {
                assert(s.drop_last()[i] == s[i]);
            }
        }
        n
    } else {
        assert(s.take(s.len() as int) == s);
        s.len() as int
    }
}

/// Trimming takes white space from both ends, all of it and nothing else.
pub proof fn law_trimming_takes_space_alone(before: Seq<char>, core: Seq<char>, after: Seq<char>)
    requires
        forall|i: int| 0 <= i < before.len() ==> is_space(#[trigger] before[i]),
        forall|i: int| 0 <= i < after.len() ==> is_space(#[trigger] after[i]),
        core.len() > 0 ==> !is_space(core[0]) && !is_space(core.last()),
    ensures
        trimmed(before + core + after) == core,
{
    let s = before + core + after;
    let n = lemma_trim_start(s);
    let t = trim_start(s);
    let m = lemma_trim_end(t);
    if core.len() > 0 {
        if n < before.len() {
            assert(is_space(before[n]));
            assert(s[n] == before[n]);
        }
        if n > before.len() {
            assert(s[before.len() as int] == core[0]);
        }
        assert(n == before.len());
        assert(t == core + after);
        if m > core.len() {
            assert(t[m - 1] == after[m - 1 - core.len()]);
        }
        if m < core.len() {
            assert(t[core.len() - 1] == core.last());
        }
        assert(t.take(m) == core);
    } else {
        if n < s.len() {
            if n < before.len() {
                assert(s[n] == before[n]);
            } else {
                assert(s[n] == after[n - before.len()]);
            }
        }
        assert(t == Seq::<char>::empty());
        assert(trimmed(s) == core);
    }
}

/// White space is what Unicode calls so: tab, line feed, vertical tab, form feed, carriage
/// return, space, next line, no-break space and the spaces beyond.
pub proof fn law_white_space(c: char)
    ensures
        (c as u32) < 128 ==> (is_space(c) <==> 9 <= c as u32 <= 13 || c as u32 == 32),
        128 <= (c as u32) < 0x2000 ==> (is_space(c) <==> c as u32 == 0x85 || c as u32 == 0xa0
            || c as u32 == 0x1680),
        0x2000 <= (c as u32) ==> (is_space(c) <==> c as u32 <= 0x200a || c as u32 == 0x2028
            || c as u32 == 0x2029 || c as u32 == 0x202f || c as u32 == 0x205f || c as u32
            == 0x3000),
{
}

/// A text is cut at every separator and nowhere else: what stands on either side of one is
/// cut on its own, and a text without one stays whole.
pub proof fn law_pieces_lie_between_separators(a: Seq<char>, b: Seq<char>, sep: char)
    ensures
        pieces(a.push(sep) + b, sep) == pieces(a, sep) + pieces(b, sep),
        !a.contains(sep) ==> pieces(a, sep) == seq![a],
    decreases a.len() + b.len(),
{
    let s = a.push(sep) + b;
    if b.len() == 0 {
        assert(s == a.push(sep));
        assert(a.push(sep).drop_last() == a);
        assert(pieces(b, sep) == seq![Seq::<char>::empty()]);
        assert(pieces(a, sep).push(Seq::empty()) == pieces(a, sep) + seq![Seq::<char>::empty()]);
    } else {
        let c = b.drop_last();
        assert(s.drop_last() == a.push(sep) + c);
        assert(s.last() == b.last());
        law_pieces_lie_between_separators(a, c, sep);
        lemma_pieces_nonempty(c, sep);
        let front = pieces(a, sep);
        let back = pieces(c, sep);
        if b.last() == sep {
            assert((front + back).push(Seq::empty()) == front + back.push(Seq::empty()));
        } else {
            let last = back.last().push(b.last());
            assert((front + back).last() == back.last());
            assert((front + back).drop_last().push(last) == front + back.drop_last().push(last));
        }
    }
    if !a.contains(sep) {
        if a.len() == 0 {
            assert(a == Seq::<char>::empty());
        } else {
            let c = a.drop_last();
            assert forall|i: int| 0 <= i < c.len() implies #[trigger] c[i] != sep by {
                assert(a[i] == c[i]);
            }
            assert(a[a.len() - 1] == a.last());
            law_pieces_lie_between_separators(c, Seq::empty(), sep);
            assert(seq![c].drop_last().push(c.push(a.last())) == seq![a]) by {
                assert(c.push(a.last()) == a);
            }
        }
    }
}

proof fn lemma_words_nonempty(s: Seq<char>)
    requires
        s.len() > 0,
        !is_space(s.last()),
    ensures
        words(s).len() > 0,
{
}

/// White space parts words: what stands on either side of it is cut into words on its own,
/// and a text without white space is one word, or none if it is empty.
pub proof fn law_words_lie_between_spaces(a: Seq<char>, b: Seq<char>, space: char)
    requires
        is_space(space),
    ensures
        words(a.push(space) + b) == words(a) + words(b),
        a.len() > 0 && (forall|i: int| 0 <= i < a.len() ==> !is_space(#[trigger] a[i])) ==> words(a)
            == seq![a],
        words(Seq::<char>::empty()).len() == 0,
    decreases a.len() + b.len(),
{
    let s = a.push(space) + b;
    if b.len() == 0 {
        assert(s == a.push(space));
        assert(a.push(space).drop_last() == a);
        assert(words(a) + Seq::<Seq<char>>::empty() == words(a));
        assert(words(b) == Seq::<Seq<char>>::empty());
    } else {
        let c = b.drop_last();
        assert(s.drop_last() == a.push(space) + c);
        assert(s.last() == b.last());
        law_words_lie_between_spaces(a, c, space);
        let front = words(a);
        let back = words(c);
        if !is_space(b.last()) {
            if c.len() > 0 {
                assert(s[s.len() - 2] == b[b.len() - 2]);
                assert(c.last() == b[b.len() - 2]);
                if !is_space(c.last()) {
                    lemma_words_nonempty(c);
                    let last = back.last().push(b.last());
                    assert((front + back).last() == back.last());
                    assert((front + back).drop_last().push(last) == front + back.drop_last().push(
                        last,
                    ));
                } else {
                    assert((front + back).push(seq![b.last()]) == front + back.push(
                        seq![b.last()],
                    ));
                }
            } else {
                assert(s[s.len() - 2] == space);
                assert((front + back).push(seq![b.last()]) == front + back.push(seq![b.last()]));
            }
        }
    }
    if a.len() > 0 && (forall|i: int| 0 <= i < a.len() ==> !is_space(#[trigger] a[i])) {
        let c = a.drop_last();
        assert(!is_space(a[a.len() - 1]));
        if c.len() > 0 {
            assert forall|i: int| 0 <= i < c.len() implies !is_space(#[trigger] c[i]) by {
                assert(a[i] == c[i]);
            }
            law_words_lie_between_spaces(c, Seq::empty(), space);
            assert(!is_space(a[a.len() - 2]));
            assert(seq![c].drop_last().push(c.push(a.last())) == seq![a]) by {
                assert(c.push(a.last()) == a);
            }
        } else {
            assert(words(c) == Seq::<Seq<char>>::empty());
            assert(seq![a.last()] == a);
            assert(Seq::<Seq<char>>::empty().push(a) == seq![a]);
        }
    }
}

proof fn lemma_decimal_text(n: nat)
    ensures
        decimal_text(n).len() > 0,
        forall|i: int| 0 <= i < decimal_text(n).len() ==> is_digit(#[trigger] decimal_text(n)[i]),
        digits_value(decimal_text(n)) == n,
    decreases n,
{
    let digit = digit_char(n % 10);
    assert(digit as u8 - '0' as u8 == n % 10);
    if n < 10 {
        let s = seq![digit];
        assert(s.drop_last() == Seq::<char>::empty());
        assert(digits_value(s.drop_last()) == 0);
    } else {
        lemma_decimal_text(n / 10);
        let front = decimal_text(n / 10);
        assert(front.push(digit).drop_last() == front);
    }
}

/// A number that is written down is read back, with or without a plus sign in front of it.
pub proof fn law_numbers_are_read_back(n: u64)
    ensures
        parsed_u64(decimal_text(n as nat)) == Some(n),
        parsed_u64(seq!['+'] + decimal_text(n as nat)) == Some(n),
{
    lemma_decimal_text(n as nat);
    let s = decimal_text(n as nat);
    assert(is_digit(s[0]));
    assert((seq!['+'] + s).skip(1) == s);
}

/// Nothing but decimal digits, with or without a plus sign in front of them, is a number.
pub proof fn law_only_digits_are_numbers(s: Seq<char>, i: int)
    requires
        0 <= i < s.len(),
        !(48 <= s[i] as u32 <= 57),
        !(i == 0 && s[0] == '+'),
    ensures
        parsed_u64(s) is None,
{
    let d = unsigned_part(s);
    if s[0] == '+' {
        assert(d[i - 1] == s[i]);
    } else {
        assert(d[i] == s[i]);
    }
}

/// Each byte is written as two hexadecimal digits in small letters, the higher one first.
pub proof fn law_bytes_in_hex(bytes: Seq<u8>, i: int)
    requires
        0 <= i < bytes.len(),
    ensures
        hex_bytes_text(bytes).len() == 2 * bytes.len(),
        ({
            let high = (bytes[i] / 16) as u32;
            let low = (bytes[i] % 16) as u32;
            &&& hex_bytes_text(bytes)[2 * i] as u32 == if high < 10 { 48 + high } else { 87 + high }
            &&& hex_bytes_text(bytes)[2 * i + 1] as u32 == if low < 10 { 48 + low } else { 87 + low }
        }),
    decreases bytes.len(),
{
    let rest = bytes.drop_last();
    let n = bytes.last() as nat;
    reveal_with_fuel(hex_text, 3);
    assert(hex_text(n, 2).len() == 2);
    assert(hex_text(n, 2)[0] == hex_char((n / 16) % 16));
    assert(hex_text(n, 2)[1] == hex_char(n % 16));
    if i < rest.len() {
        law_bytes_in_hex(rest, i);
        assert(rest[i] == bytes[i]);
    } else if rest.len() > 0 {
        law_bytes_in_hex(rest, 0);
    } else {
        assert(hex_bytes_text(rest).len() == 0);
    }
}

/// A text occurs in another where all of its characters stand there one after the other.
pub proof fn law_occurrences_agree_in_every_character(s: Seq<char>, needle: Seq<char>, i: int)
    ensures
        occurs_at(s, needle, i) <==> 0 <= i && i + needle.len() <= s.len() && forall|j: int|
            0 <= j < needle.len() ==> #[trigger] needle[j] == s[i + j],
{
    if 0 <= i && i + needle.len() <= s.len() {
        let part = s.subrange(i, i + needle.len());
        if part == needle {
            assert forall|j: int| 0 <= j < needle.len() implies #[trigger] needle[j] == s[i + j] by {
                assert(part[j] == s[i + j]);
            }
        }
        if forall|j: int| 0 <= j < needle.len() ==> #[trigger] needle[j] == s[i + j] {
            assert(part =~= needle);
        }
    }
}

/// A text occurs in every text that it is a part of, whatever stands before and behind it.
pub proof fn law_substrings_stand_somewhere(s: Seq<char>, front: Seq<char>, back: Seq<char>)
    ensures
        has_substring(front + s + back, s),
{
    assert((front + s + back).subrange(front.len() as int, (front.len() + s.len()) as int) =~= s);
    assert(occurs_at(front + s + back, s, front.len() as int));
}

} // verus!
