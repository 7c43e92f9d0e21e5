//! Text as sequences of characters: the vocabulary of the contracts, and the
//! functions that compute on strings.
use vstd::prelude::*;
use vstd::string::*;

use crate::interactive::{all_digits, is_digit, number_of};

verus! {

// ── Characters ──────────────────────────────────────────────────────────────
/// The characters with the Unicode property `White_Space`.
pub open spec fn is_space(c: char) -> bool {
    let n = c as int;
    ||| 0x9 <= n <= 0xd
    ||| n == 0x20
    ||| n == 0x85
    ||| n == 0xa0
    ||| n == 0x1680
    ||| 0x2000 <= n <= 0x200a
    ||| n == 0x2028
    ||| n == 0x2029
    ||| n == 0x202f
    ||| n == 0x205f
    ||| n == 0x3000
}

/// `char::is_whitespace` is true of exactly the characters with the Unicode
/// property `White_Space`.
pub assume_specification[ char::is_whitespace ](c: char) -> (r: bool)
    ensures
        r == is_space(c),
;

pub open spec fn all_ascii(s: Seq<char>) -> bool {
    forall|i: int| 0 <= i < s.len() ==> (#[trigger] s[i]) as int <= 0x7f
}

pub open spec fn lower_ascii(c: char) -> char {
    if 'A' <= c && c <= 'Z' {
        (c as int + 32) as char
    } else {
        c
    }
}

pub open spec fn upper_ascii(c: char) -> char {
    if 'a' <= c && c <= 'z' {
        (c as int - 32) as char
    } else {
        c
    }
}

/// A text with each of the letters `A` to `Z` in lower case.
pub open spec fn lower_text(s: Seq<char>) -> Seq<char> {
    s.map_values(|c: char| lower_ascii(c))
}

/// A text with each of the letters `a` to `z` in upper case.
pub open spec fn upper_text(s: Seq<char>) -> Seq<char> {
    s.map_values(|c: char| upper_ascii(c))
}

/// What `str::to_lowercase` makes of a text.
pub uninterp spec fn lowercased(s: Seq<char>) -> Seq<char>;

/// `str::to_lowercase` depends on the text alone; on ASCII text it replaces each
/// of the letters `A` to `Z` by its lower case and keeps everything else. What it
/// does to other characters is Unicode's mapping, which is not spelled out.
pub assume_specification[ str::to_lowercase ](s: &str) -> (r: String)
    ensures
        r@ == lowercased(s@),
        all_ascii(s@) ==> r@ == lower_text(s@),
;

/// `str::to_ascii_lowercase` replaces each of the letters `A` to `Z` by its lower case
/// and keeps everything else, on any text.
pub assume_specification[ str::to_ascii_lowercase ](s: &str) -> (r: String)
    ensures
        r@ == lower_text(s@),
;

/// What `str::to_uppercase` makes of a text.
pub uninterp spec fn uppercased(s: Seq<char>) -> Seq<char>;

/// `str::to_uppercase` depends on the text alone; on ASCII text it replaces each
/// of the letters `a` to `z` by its upper case and keeps everything else. What it
/// does to other characters is Unicode's mapping, which is not spelled out.
pub assume_specification[ str::to_uppercase ](s: &str) -> (r: String)
    ensures
        r@ == uppercased(s@),
        all_ascii(s@) ==> r@ == upper_text(s@),
;

/// `a` comes before `b` in the order of texts, which is that of their characters at the
/// first position at which they differ.
pub open spec fn sorts_before(a: Seq<char>, b: Seq<char>) -> bool {
    exists|k: int|
        0 <= k <= a.len() && k < b.len() && #[trigger] a.take(k) == b.take(k) && (k == a.len()
            || a[k] < b[k])
}

/// The characters of `s`, one by one.
pub fn chars_of(s: &str) -> (r: Vec<char>)
    ensures
        r@ == s@,
{
    let mut v: Vec<char> = Vec::new();
    for c in iter: s.chars()
        invariant
            v@ == s@.take(iter.index()),
            iter.seq() == s@,
    {
        v.push(c);
    }
    assert(s@.take(s@.len() as int) == s@);
    v
}

// ── Comparison and search ───────────────────────────────────────────────────
/// Whether two strings hold the same characters.
pub fn same_text(a: &str, b: &str) -> (r: bool)
    ensures
        r == (a@ == b@),
{
    String::from_str(a) == String::from_str(b)
}

/// `pat` stands in `s` at position `i`.
pub open spec fn occurs_at(s: Seq<char>, pat: Seq<char>, i: int) -> bool {
    &&& 0 <= i
    &&& i + pat.len() <= s.len()
    &&& s.subrange(i, i + pat.len()) == pat
}

/// `pat` stands somewhere in `s`.
pub open spec fn occurs(s: Seq<char>, pat: Seq<char>) -> bool {
    exists|i: int| occurs_at(s, pat, i)
}

/// The first position in `s` at or after `from` where `pat` stands.
pub open spec fn first_at(s: Seq<char>, pat: Seq<char>, from: int) -> Option<int>
    decreases s.len() + 1 - from,
{
    if from < 0 || from + pat.len() > s.len() {
        None
    } else if occurs_at(s, pat, from) {
        Some(from)
    } else {
        first_at(s, pat, from + 1)
    }
}

/// `first_at` finds the leftmost occurrence, and finds one wherever there is one.
pub proof fn lemma_first_at(s: Seq<char>, pat: Seq<char>, from: int)
    requires
        0 <= from,
    ensures
        first_at(s, pat, from) matches Some(i) ==> {
            &&& from <= i
            &&& occurs_at(s, pat, i)
            &&& forall|j: int| from <= j < i ==> !occurs_at(s, pat, j)
        },
        first_at(s, pat, from) is None ==> forall|j: int| from <= j ==> !occurs_at(s, pat, j),
    decreases s.len() + 1 - from,
{
    if from + pat.len() <= s.len() && !occurs_at(s, pat, from) {
        lemma_first_at(s, pat, from + 1);
    }
}

/// Whether `pat` stands at `at` in `s`.
pub(crate) fn matches_at(s: &Vec<char>, pat: &Vec<char>, at: usize) -> (r: bool)
    requires
        at + pat@.len() <= s@.len(),
    ensures
        r == occurs_at(s@, pat@, at as int),
{
    let n: usize = s.len();
    let mut k: usize = 0;
    while k < pat.len()
        invariant
            k <= pat@.len(),
            n == s@.len(),
            at + pat@.len() <= s@.len(),
            forall|j: int| 0 <= j < k ==> s@[at + j] == pat@[j],
        decreases pat@.len() - k,
    {
        if s[at + k] != pat[k] {
            assert(s@.subrange(at as int, at + pat@.len())[k as int] != pat@[k as int]);
            return false;
        }
        k = k + 1;
    }
    assert(s@.subrange(at as int, at + pat@.len()) =~= pat@);
    true
}

/// The first position in `s` at or after `from` where `pat` stands.
pub fn find_from(s: &Vec<char>, pat: &Vec<char>, from: usize) -> (r: Option<usize>)
    requires
        from <= s@.len(),
    ensures
        match r {
            Some(i) => first_at(s@, pat@, from as int) == Some(i as int) && i + pat@.len()
                <= s@.len() && from <= i,
            None => first_at(s@, pat@, from as int) is None,
        },
{
    let mut at: usize = from;
    while pat.len() <= s.len() - at
        invariant
            from <= at <= s@.len(),
            first_at(s@, pat@, from as int) == first_at(s@, pat@, at as int),
        decreases s@.len() - at,
    {
        if matches_at(s, pat, at) {
            return Some(at);
        }
        if at == s.len() {
            assert(first_at(s@, pat@, at + 1) is None);
            return None;
        }
        at = at + 1;
    }
    None
}

/// Whether `pat` stands somewhere in `s`.
pub fn contains_text(s: &str, pat: &str) -> (r: bool)
    ensures
        r == occurs(s@, pat@),
{
    let sv = chars_of(s);
    let pv = chars_of(pat);
    let found = find_from(&sv, &pv, 0);
    proof {
        lemma_first_at(s@, pat@, 0);
    }
    match found {
        Some(i) => {
            assert(occurs_at(s@, pat@, i as int));
            true
        },
        None => {
            assert forall|j: int| !occurs_at(s@, pat@, j) by {
                if j < 0 {
                }
            }
            false
        },
    }
}

/// Whether `s` begins with `pat`.
pub fn begins_with(s: &str, pat: &str) -> (r: bool)
    ensures
        r == pat@.is_prefix_of(s@),
{
    let sv = chars_of(s);
    let pv = chars_of(pat);
    if pv.len() > sv.len() {
        return false;
    }
    let r = matches_at(&sv, &pv, 0);
    assert(0 + pat@.len() == pat@.len());
    r
}

/// Whether `s` ends with `pat`.
pub fn ends_with(s: &str, pat: &str) -> (r: bool)
    ensures
        r == pat@.is_suffix_of(s@),
{
    let sv = chars_of(s);
    let pv = chars_of(pat);
    if pv.len() > sv.len() {
        return false;
    }
    let at: usize = sv.len() - pv.len();
    let r = matches_at(&sv, &pv, at);
    assert(at + pat@.len() == s@.len());
    r
}

// ── White space ─────────────────────────────────────────────────────────────
/// `s` without the white space at its front.
pub open spec fn trim_front(s: Seq<char>) -> Seq<char>
    decreases s.len(),
{
    if s.len() > 0 && is_space(s.first()) {
        trim_front(s.drop_first())
    } else {
        s
    }
}

/// `s` without the white space at its back.
pub open spec fn trim_back(s: Seq<char>) -> Seq<char>
    decreases s.len(),
{
    if s.len() > 0 && is_space(s.last()) {
        trim_back(s.drop_last())
    } else {
        s
    }
}

/// `s` without the white space at both ends.
pub open spec fn trimmed(s: Seq<char>) -> Seq<char> {
    trim_back(trim_front(s))
}

/// `s` without the white space at both ends.
pub fn trim(s: &str) -> (r: &str)
    ensures
        r@ == trimmed(s@),
{
    let v = chars_of(s);
    let mut from: usize = 0;
    assert(s@.skip(0) == s@);
    while from < v.len() && v[from].is_whitespace()
        invariant
            v@ == s@,
            from <= v@.len(),
            trim_front(s@) == trim_front(s@.skip(from as int)),
        decreases v@.len() - from,
    {
        assert(s@.skip(from as int).drop_first() =~= s@.skip(from + 1));
        from = from + 1;
    }
    assert(trim_front(s@) == s@.skip(from as int));
    let mut to: usize = v.len();
    assert(s@.subrange(from as int, to as int) =~= s@.skip(from as int));
    while to > from && v[to - 1].is_whitespace()
        invariant
            v@ == s@,
            from <= to <= v@.len(),
            trim_back(s@.skip(from as int)) == trim_back(s@.subrange(from as int, to as int)),
        decreases to,
    {
        assert(s@.subrange(from as int, to as int).drop_last() =~= s@.subrange(
            from as int,
            to - 1,
        ));
        to = to - 1;
    }
    s.substring_char(from, to)
}

// ── Numbers ─────────────────────────────────────────────────────────────────
/// The decimal digit for `d`.
pub open spec fn digit(d: int) -> char {
    ('0' as int + d) as char
}

/// `n` in decimal, without leading zeros.
pub open spec fn decimal(n: nat) -> Seq<char>
    decreases n,
{
    if n < 10 {
        seq![digit(n as int)]
    } else {
        decimal(n / 10).push(digit((n % 10) as int))
    }
}

/// `s` with as many `fill` in front as bring it to `width` characters.
pub open spec fn filled(s: Seq<char>, fill: char, width: nat) -> Seq<char> {
    if s.len() >= width {
        s
    } else {
        Seq::new((width - s.len()) as nat, |i: int| fill) + s
    }
}

/// `n` in decimal, with zeros in front up to `width` digits.
pub open spec fn padded(n: nat, width: nat) -> Seq<char> {
    filled(decimal(n), '0', width)
}

fn digit_text(d: u8) -> (r: &'static str)
    requires
        d < 10,
    ensures
        r@ == seq![digit(d as int)],
{
    proof {
        reveal_strlit("0");
        reveal_strlit("1");
        reveal_strlit("2");
        reveal_strlit("3");
        reveal_strlit("4");
        reveal_strlit("5");
        reveal_strlit("6");
        reveal_strlit("7");
        reveal_strlit("8");
        reveal_strlit("9");
    }
    match d {
        0 => "0",
        1 => "1",
        2 => "2",
        3 => "3",
        4 => "4",
        5 => "5",
        6 => "6",
        7 => "7",
        8 => "8",
        _ => "9",
    }
}

/// `n` in decimal.
pub fn decimal_text(n: u128) -> (r: String)
    ensures
        r@ == decimal(n as nat),
    decreases n,
{
    if n < 10 {
        String::from_str(digit_text(n as u8))
    } else {
        let mut s = decimal_text(n / 10);
        s.append(digit_text((n % 10) as u8));
        assert(s@ =~= decimal(n as nat));
        s
    }
}

/// `s` with as many zeros in front as bring it to `width` characters.
pub fn zero_filled(s: &str, width: usize) -> (r: String)
    ensures
        r@ == filled(s@, '0', width as nat),
{
    let len: usize = s.unicode_len();
    let mut r = String::new();
    if len < width {
        proof {
            reveal_strlit("0");
        }
        let mut k: usize = len;
        while k < width
            invariant
                len <= k <= width,
                r@ == Seq::new((k - len) as nat, |i: int| '0'),
                "0"@ == seq!['0'],
            decreases width - k,
        {
            r.append("0");
            k = k + 1;
            assert(r@ =~= Seq::new((k - len) as nat, |i: int| '0'));
        }
    }
    r.append(s);
    assert(r@ =~= filled(s@, '0', width as nat));
    r
}

/// `n` in decimal, with zeros in front up to `width` digits.
pub fn padded_text(n: u128, width: usize) -> (r: String)
    ensures
        r@ == padded(n as nat, width as nat),
{
    let d = decimal_text(n);
    zero_filled(d.as_str(), width)
}

/// `n` in decimal, with a sign where it is negative.
pub open spec fn signed_decimal(n: int) -> Seq<char> {
    if n < 0 {
        "-"@ + decimal((-n) as nat)
    } else {
        decimal(n as nat)
    }
}

/// `n` in decimal, with a sign where it is negative.
pub fn signed_text(n: i32) -> (r: String)
    ensures
        r@ == signed_decimal(n as int),
{
    let wide: i64 = n as i64;
    if wide < 0 {
        let mut s = String::from_str("-");
        let d = decimal_text((0 - wide) as u128);
        s.append(d.as_str());
        s
    } else {
        decimal_text(wide as u128)
    }
}

/// The character of a hexadecimal digit, in lower case.
pub open spec fn hex_digit(d: int) -> char {
    if d < 10 {
        digit(d)
    } else {
        ('a' as int + (d - 10)) as char
    }
}

/// The last `width` hexadecimal digits of `n`, zeros in front included.
pub open spec fn hex(n: nat, width: nat) -> Seq<char>
    decreases width,
{
    if width == 0 {
        Seq::empty()
    } else {
        hex(n / 16, (width - 1) as nat).push(hex_digit((n % 16) as int))
    }
}

fn hex_digit_text(d: u8) -> (r: &'static str)
    requires
        d < 16,
    ensures
        r@ == seq![hex_digit(d as int)],
{
    if d < 10 {
        return digit_text(d);
    }
    proof {
            reveal_strlit("a");
            reveal_strlit("b");
            reveal_strlit("c");
            reveal_strlit("d");
            reveal_strlit("e");
            reveal_strlit("f");
    }
    match d {
        10 => "a",
        11 => "b",
        12 => "c",
        13 => "d",
        14 => "e",
        _ => "f",
    }
}

/// The last `width` hexadecimal digits of `n`, zeros in front included.
pub fn hex_text(n: u128, width: usize) -> (r: String)
    ensures
        r@ == hex(n as nat, width as nat),
    decreases width,
{
    if width == 0 {
        String::new()
    } else {
        let mut s = hex_text(n / 16, width - 1);
        s.append(hex_digit_text((n % 16) as u8));
        assert(s@ =~= hex(n as nat, width as nat));
        s
    }
}

// ── Outcomes ────────────────────────────────────────────────────────────────
/// What came of a step that can fail: nothing, or the reason why it failed.
pub open spec fn outcome(r: Result<(), String>) -> Result<(), Seq<char>> {
    match r {
        Ok(done) => Ok(done),
        Err(cause) => Err(cause@),
    }
}

// ── Lists of texts ──────────────────────────────────────────────────────────
/// The characters of each string of a list.
pub open spec fn texts(v: Seq<String>) -> Seq<Seq<char>> {
    v.map_values(|s: String| s@)
}

/// The parts one after the other, with `sep` between each two.
pub open spec fn joined(parts: Seq<Seq<char>>, sep: Seq<char>) -> Seq<char>
    decreases parts.len(),
{
    if parts.len() == 0 {
        Seq::empty()
    } else if parts.len() == 1 {
        parts[0]
    } else {
        joined(parts.drop_last(), sep) + sep + parts.last()
    }
}

/// The parts one after the other, with `sep` between each two.
pub fn join_text(parts: &Vec<&'static str>, sep: &str) -> (r: String)
    ensures
        r@ == joined(parts@.map_values(|s: &'static str| s@), sep@),
{
    let ghost all = parts@.map_values(|s: &'static str| s@);
    let mut r = String::new();
    let mut i: usize = 0;
    assert(all.take(0) =~= Seq::empty());
    while i < parts.len()
        invariant
            i <= parts@.len(),
            all == parts@.map_values(|s: &'static str| s@),
            r@ == joined(all.take(i as int), sep@),
        decreases parts@.len() - i,
    {
        if i > 0 {
            r.append(sep);
        }
        r.append(parts[i]);
        proof {
            assert(all.take(i + 1).drop_last() =~= all.take(i as int));
            assert(all.take(i + 1).last() == parts@[i as int]@);
            if i == 0 {
                assert(r@ =~= all[0]);
            }
        }
        i = i + 1;
    }
    assert(all.take(all.len() as int) =~= all);
    r
}

/// A line without the carriage return that may stand at its end.
pub open spec fn without_return(line: Seq<char>) -> Seq<char> {
    if line.len() > 0 && line.last() == '\r' {
        line.drop_last()
    } else {
        line
    }
}

/// The lines of a text. A line ends in `\n` or `\r\n`, which is not part of it; the
/// last line need not.
pub open spec fn lines_of(s: Seq<char>) -> Seq<Seq<char>>
    decreases s.len(),
{
    if s.len() == 0 {
        Seq::empty()
    } else {
        match s.index_of_first('\n') {
            Some(i) => if 0 <= i < s.len() {
                seq![without_return(s.take(i))] + lines_of(s.skip(i + 1))
            } else {
                Seq::empty()
            },
            None => seq![s],
        }
    }
}

/// The last `n` of a list of texts, or all of them where there are fewer.
pub open spec fn last_of(list: Seq<Seq<char>>, n: nat) -> Seq<Seq<char>> {
    if list.len() <= n {
        list
    } else {
        list.skip(list.len() - n)
    }
}

/// The part of `s` from `from` to `to`, without the carriage return that may stand at
/// its end.
fn line_at(s: &str, v: &Vec<char>, from: usize, to: usize) -> (r: String)
    requires
        v@ == s@,
        from <= to <= s@.len(),
    ensures
        r@ == without_return(s@.subrange(from as int, to as int)),
{
    if from < to && v[to - 1] == '\r' {
        let r = String::from_str(s.substring_char(from, to - 1));
        assert(r@ =~= without_return(s@.subrange(from as int, to as int)));
        r
    } else {
        String::from_str(s.substring_char(from, to))
    }
}

/// The lines of a text.
pub fn lines(s: &str) -> (r: Vec<String>)
    ensures
        texts(r@) == lines_of(s@),
{
    let v = chars_of(s);
    let len: usize = v.len();
    let mut r: Vec<String> = Vec::new();
    let mut start: usize = 0;
    let mut i: usize = 0;
    assert(s@.skip(0) =~= s@);
    assert(texts(r@) + lines_of(s@) =~= lines_of(s@));
    while i < len
        invariant
            v@ == s@,
            len == v@.len(),
            start <= i <= len,
            forall|j: int| start <= j < i ==> s@[j] != '\n',
            texts(r@) + lines_of(s@.skip(start as int)) == lines_of(s@),
        decreases len - i,
    {
        if v[i] == '\n' {
            let ghost rest = s@.skip(start as int);
            let ghost before = texts(r@);
            let line = line_at(s, &v, start, i);
            proof {
                rest.index_of_first_ensures('\n');
                assert(rest[i - start] == '\n');
                assert(rest.contains('\n'));
                assert(forall|j: int| 0 <= j < i - start ==> rest[j] == s@[start + j]);
                assert(rest.index_of_first('\n') == Some(i - start));
                assert(rest.take(i - start) =~= s@.subrange(start as int, i as int));
                assert(rest.skip(i - start + 1) =~= s@.skip(i + 1));
            }
            r.push(line);
            assert(texts(r@) =~= before.push(line@));
            assert(texts(r@) + lines_of(s@.skip(i + 1)) =~= before + lines_of(rest));
            start = i + 1;
        }
        i = i + 1;
    }
    let ghost rest = s@.skip(start as int);
    if start < len {
        let ghost before = texts(r@);
        let line = String::from_str(s.substring_char(start, len));
        proof {
            rest.index_of_first_ensures('\n');
            assert(!rest.contains('\n')) by {
                if rest.contains('\n') {
                    let j = choose|j: int| 0 <= j < rest.len() && rest[j] == '\n';
                    assert(s@[start + j] == '\n');
                }
            }
            assert(line@ =~= rest);
        }
        r.push(line);
        assert(texts(r@) =~= before + lines_of(rest));
    } else {
        assert(texts(r@) =~= texts(r@) + lines_of(rest));
    }
    r
}

// ── Laws ────────────────────────────────────────────────────────────────────
/// A number is written in decimal digits that stand for it, without zeros in front.
pub proof fn law_decimal_stands_for_the_number(n: nat)
    ensures
        decimal(n).len() > 0,
        all_digits(decimal(n)),
        number_of(decimal(n)) == n,
        decimal(n).len() > 1 ==> decimal(n)[0] != '0',
        n > 0 ==> decimal(n)[0] != '0',
    decreases n,
{
    reveal_with_fuel(number_of, 2);
    if n >= 10 {
        law_decimal_stands_for_the_number(n / 10);
        let front = decimal(n / 10);
        assert(decimal(n).drop_last() =~= front);
        assert forall|i: int| 0 <= i < decimal(n).len() implies is_digit(
            #[trigger] decimal(n)[i],
        ) by {
            if i < front.len() {
                assert(decimal(n)[i] == front[i]);
            }
        }
        assert(decimal(n)[0] == front[0]);
    } else {
        assert(decimal(n).drop_last() =~= Seq::empty());
    }
}

proof fn lemma_zeros_in_front(k: nat, s: Seq<char>)
    ensures
        number_of(Seq::new(k, |i: int| '0') + s) == number_of(s),
    decreases s.len(), k,
{
    let zeros = Seq::new(k, |i: int| '0');
    if s.len() > 0 {
        assert((zeros + s).drop_last() =~= zeros + s.drop_last());
        lemma_zeros_in_front(k, s.drop_last());
    } else if k > 0 {
        let fewer = Seq::new((k - 1) as nat, |i: int| '0');
        assert((zeros + s).drop_last() =~= fewer + s);
        lemma_zeros_in_front((k - 1) as nat, s);
    } else {
        assert(zeros + s =~= s);
    }
}

/// A number that is filled up still stands for itself. It is as wide as was asked for,
/// unless it needs more digits.
pub proof fn law_padded_stands_for_the_number(n: nat, width: nat)
    ensures
        all_digits(padded(n, width)),
        number_of(padded(n, width)) == n,
        padded(n, width).len() >= width,
        padded(n, width).len() > width ==> padded(n, width) == decimal(n),
{
    law_decimal_stands_for_the_number(n);
    let d = decimal(n);
    if d.len() < width {
        lemma_zeros_in_front((width - d.len()) as nat, d);
        assert forall|i: int| 0 <= i < padded(n, width).len() implies is_digit(
            #[trigger] padded(n, width)[i],
        ) by {
            if i >= width - d.len() {
                assert(padded(n, width)[i] == d[i - (width - d.len())]);
            }
        }
    }
}

/// A negative number is written with a minus sign in front of its digits, any other with
/// its digits alone.
pub proof fn law_sign_stands_in_front(n: int)
    ensures
        n < 0 ==> signed_decimal(n)[0] == '-' && all_digits(signed_decimal(n).drop_first())
            && number_of(signed_decimal(n).drop_first()) == -n,
        n >= 0 ==> all_digits(signed_decimal(n)) && number_of(signed_decimal(n)) == n,
{
    reveal_strlit("-");
    if n < 0 {
        law_decimal_stands_for_the_number((-n) as nat);
        assert(signed_decimal(n).drop_first() =~= decimal((-n) as nat));
    } else {
        law_decimal_stands_for_the_number(n as nat);
    }
}

/// The value of a hexadecimal digit.
pub open spec fn hex_value(c: char) -> int {
    if '0' <= c && c <= '9' {
        c as int - '0' as int
    } else {
        c as int - 'a' as int + 10
    }
}

/// The number that hexadecimal digits stand for.
pub open spec fn hex_number(s: Seq<char>) -> int
    decreases s.len(),
{
    if s.len() == 0 {
        0
    } else {
        hex_number(s.drop_last()) * 16 + hex_value(s.last())
    }
}

pub open spec fn sixteen_to(width: nat) -> nat
    decreases width,
{
    if width == 0 {
        1
    } else {
        16 * sixteen_to((width - 1) as nat)
    }
}

/// The hexadecimal digits of a number stand for its remainder.
pub proof fn law_hex_stands_for_the_number(n: nat, width: nat)
    ensures
        hex(n, width).len() == width,
        hex_number(hex(n, width)) == n % sixteen_to(width),
        sixteen_to(width) > 0,
    decreases width,
{
    if width > 0 {
        let less = (width - 1) as nat;
        law_hex_stands_for_the_number(n / 16, less);
        let s = hex(n, width);
        assert(s.drop_last() =~= hex(n / 16, less));
        vstd::arithmetic::div_mod::lemma_mod_breakdown(n as int, 16, sixteen_to(less) as int);
        assert(hex_value(s.last()) == n % 16);
    }
}

/// Lines are parted by `\n`, which no line holds, and a `\r` before it goes with it.
pub proof fn law_lines_are_parted(line: Seq<char>, rest: Seq<char>)
    requires
        !line.contains('\n'),
    ensures
        lines_of(line + seq!['\n'] + rest) == seq![
            (if line.len() > 0 && line.last() == '\r' {
                line.drop_last()
            } else {
                line
            }),
        ] + lines_of(rest),
        line.len() > 0 ==> lines_of(line) == seq![line],
        lines_of(Seq::empty()).len() == 0,
{
    let s = line + seq!['\n'] + rest;
    s.index_of_first_ensures('\n');
    assert(s[line.len() as int] == '\n');
    assert(s.contains('\n'));
    let i = s.index_of_first('\n').unwrap();
    if i < line.len() {
        assert(line[i] == '\n');
        assert(line.contains('\n'));
    }
    assert(s.take(i) =~= line);
    assert(s.skip(i + 1) =~= rest);
    line.index_of_first_ensures('\n');
}

/// The last of a list are a part of it that reaches to its end: as many as were asked
/// for, or all of them.
pub proof fn law_last_reach_to_the_end(list: Seq<Seq<char>>, n: nat)
    ensures
        last_of(list, n).len() == (if list.len() < n {
            list.len()
        } else {
            n
        }),
        forall|i: int|
            0 <= i < last_of(list, n).len() ==> #[trigger] last_of(list, n)[i] == list[list.len()
                - last_of(list, n).len() + i],
{
}

/// Texts are joined in their order, with the separator between each two.
pub proof fn law_texts_are_joined(parts: Seq<Seq<char>>, more: Seq<char>, sep: Seq<char>)
    ensures
        joined(Seq::empty(), sep) == Seq::<char>::empty(),
        joined(seq![more], sep) == more,
        parts.len() > 0 ==> joined(parts.push(more), sep) == joined(parts, sep) + sep + more,
{
    assert(parts.push(more).drop_last() =~= parts);
}

/// The letters `A` to `Z` and `a` to `z` become each other, and all else stays.
pub proof fn law_ascii_case(c: char)
    ensures
        'A' <= c && c <= 'Z' ==> lower_ascii(c) as int == c as int + 32 && upper_ascii(
            lower_ascii(c),
        ) == c,
        'a' <= c && c <= 'z' ==> upper_ascii(c) as int == c as int - 32 && lower_ascii(
            upper_ascii(c),
        ) == c,
        !('A' <= c && c <= 'Z') ==> lower_ascii(c) == c,
        !('a' <= c && c <= 'z') ==> upper_ascii(c) == c,
{
}

/// What stands between two texts occurs in the whole.
pub proof fn lemma_middle_occurs(a: Seq<char>, b: Seq<char>, c: Seq<char>)
    ensures
        occurs(a + b + c, b),
{
    let s = a + b + c;
    assert(s.subrange(a.len() as int, (a.len() + b.len()) as int) =~= b);
    assert(occurs_at(s, b, a.len() as int));
}

} // verus!
