//! Text as sequences of characters: trimming, splitting, searching, numbers.

use crate::lists::{collect, collected_has_source};
use vstd::utf8::is_ascii_chars;
use vstd::prelude::*;

verus! {

/// `String::push` appends the character at the end of the text.
pub assume_specification[ String::push ](s: &mut String, c: char)
    ensures
        final(s)@ == old(s)@.push(c),
;

/// The characters of a list of texts.
pub open spec fn texts(v: Seq<String>) -> Seq<Seq<char>> {
    v.map_values(|s: String| s@)
}

/// The views of a list to which a text is added.
pub broadcast proof fn texts_push(v: Seq<String>, s: String)
    ensures
        #[trigger] texts(v.push(s)) == texts(v).push(s@),
{
    assert(texts(v.push(s)) =~= texts(v).push(s@));
}

/// The views of no texts.
pub broadcast proof fn texts_empty()
    ensures
        #[trigger] texts(Seq::<String>::empty()) == Seq::<Seq<char>>::empty(),
{
    assert(texts(Seq::<String>::empty()) =~= Seq::<Seq<char>>::empty());
}

/// The view of an optional text.
pub open spec fn opt_text(o: Option<String>) -> Option<Seq<char>> {
    match o {
        Some(s) => Some(s@),
        None => None,
    }
}

/// Unicode's `White_Space` property.
pub open spec fn is_white(c: char) -> bool {
    let u = c as int;
    (0x9 <= u <= 0xD) || u == 0x20 || u == 0x85 || u == 0xA0 || u == 0x1680 || (0x2000 <= u
        <= 0x200A) || u == 0x2028 || u == 0x2029 || u == 0x202F || u == 0x205F || u == 0x3000
}

/// Whether `c` is white space.
pub fn is_white_space(c: char) -> (b: bool)
    ensures
        b == is_white(c),
{
    let u: u32 = c as u32;
    (0x9 <= u && u <= 0xD) || u == 0x20 || u == 0x85 || u == 0xA0 || u == 0x1680 || (0x2000 <= u
        && u <= 0x200A) || u == 0x2028 || u == 0x2029 || u == 0x202F || u == 0x205F || u == 0x3000
}

/// Unicode's control characters (category `Cc`).
pub open spec fn is_control_char(c: char) -> bool {
    let u = c as int;
    u <= 0x1F || (0x7F <= u <= 0x9F)
}

/// Whether `c` is a control character.
pub fn is_control(c: char) -> (b: bool)
    ensures
        b == is_control_char(c),
{
    let u: u32 = c as u32;
    u <= 0x1F || (0x7F <= u && u <= 0x9F)
}

pub open spec fn is_digit_char(c: char) -> bool {
    '0' <= c <= '9'
}

pub open spec fn is_ascii_alnum(c: char) -> bool {
    ('0' <= c <= '9') || ('a' <= c <= 'z') || ('A' <= c <= 'Z')
}

/// Whether `c` is an ASCII letter or digit.
pub fn ascii_alnum(c: char) -> (b: bool)
    ensures
        b == is_ascii_alnum(c),
{
    ('0' <= c && c <= '9') || ('a' <= c && c <= 'z') || ('A' <= c && c <= 'Z')
}

/// The characters of a text.
pub fn chars_of(s: &str) -> (v: Vec<char>)
    ensures
        v@ == s@,
{
    let mut v: Vec<char> = Vec::new();
    for c in it: s.chars()
        invariant
            it.seq() == s@,
            v@ == s@.take(it.index()),
    {
        v.push(c);
    }
    assert(s@.take(s@.len() as int) =~= s@);
    v
}

/// The text made of the characters from `from` up to `to`.
pub fn text_between(v: &Vec<char>, from: usize, to: usize) -> (s: String)
    requires
        from <= to <= v.len(),
    ensures
        s@ == v@.subrange(from as int, to as int),
{
    let mut s = String::new();
    let mut i: usize = from;
    while i < to
        invariant
            from <= i <= to <= v.len(),
            s@ =~= v@.subrange(from as int, i as int),
        decreases to - i,
    {
        s.push(v[i]);
        i += 1;
    }
    s
}

/// An owned copy of a text.
pub fn owned(s: &str) -> (r: String)
    ensures
        r@ == s@,
{
    s.to_owned()
}

/// Whether two texts are the same.
pub fn same(a: &str, b: &str) -> (r: bool)
    ensures
        r == (a@ == b@),
{
    a.to_owned() == b.to_owned()
}

/// The two texts one after the other.
pub fn join2(a: &str, b: &str) -> (r: String)
    ensures
        r@ == a@ + b@,
{
    let mut r = a.to_owned();
    r.append(b);
    r
}

/// The three texts one after the other.
pub fn join3(a: &str, b: &str, c: &str) -> (r: String)
    ensures
        r@ == a@ + b@ + c@,
{
    let mut r = a.to_owned();
    r.append(b);
    r.append(c);
    r
}

/// Whether the list holds the text.
pub fn has_text(v: &Vec<String>, x: &str) -> (b: bool)
    ensures
        b == texts(v@).contains(x@),
{
    let mut i: usize = 0;
    while i < v.len()
        invariant
            i <= v.len(),
            forall|j: int| 0 <= j < i ==> texts(v@)[j] != x@,
        decreases v.len() - i,
    {
        if same(v[i].as_str(), x) {
            assert(texts(v@)[i as int] == x@);
            return true;
        }
        i += 1;
    }
    false
}

/// A copy of a list of texts.
pub fn copy_texts(v: &Vec<String>) -> (r: Vec<String>)
    ensures
        texts(r@) == texts(v@),
        r@ == v@,
{
    let mut r: Vec<String> = Vec::new();
    let mut i: usize = 0;
    while i < v.len()
        invariant
            i <= v.len(),
            r.len() == i,
            forall|j: int| 0 <= j < i ==> r@[j] == v@[j],
        decreases v.len() - i,
    {
        let c = v[i].clone();
        r.push(c);
        i += 1;
    }
    assert(r@ =~= v@);
    r
}

pub open spec fn spec_trim_start(s: Seq<char>) -> Seq<char>
    decreases s.len(),
{
    if s.len() > 0 && is_white(s[0]) {
        spec_trim_start(s.skip(1))
    } else {
        s
    }
}

pub open spec fn spec_trim_end(s: Seq<char>) -> Seq<char>
    decreases s.len(),
{
    if s.len() > 0 && is_white(s.last()) {
        spec_trim_end(s.drop_last())
    } else {
        s
    }
}

/// The text without its leading and trailing white space.
pub open spec fn spec_trim(s: Seq<char>) -> Seq<char> {
    spec_trim_end(spec_trim_start(s))
}

/// A text without white space has none to trim.
pub proof fn trim_without_white(s: Seq<char>)
    requires
        forall|i: int| 0 <= i < s.len() ==> !is_white(#[trigger] s[i]),
    ensures
        spec_trim(s) == s,
{
}

/// `str::trim`.
pub fn trim(s: &str) -> (r: String)
    ensures
        r@ == spec_trim(s@),
{
    let v = chars_of(s);
    let mut a: usize = 0;
    assert(v@.skip(0) =~= v@);
    while a < v.len() && is_white_space(v[a])
        invariant
            a <= v.len(),
            spec_trim_start(v@) == spec_trim_start(v@.skip(a as int)),
        decreases v.len() - a,
    {
        assert(v@.skip(a as int).skip(1) =~= v@.skip(a + 1));
        a += 1;
    }
    let ghost t = v@.skip(a as int);
    assert(spec_trim_start(v@) == t);
    let mut b: usize = v.len();
    assert(t.take(t.len() as int) =~= t);
    while b > a && is_white_space(v[b - 1])
        invariant
            a <= b <= v.len(),
            t == v@.skip(a as int),
            spec_trim_end(t) == spec_trim_end(t.take(b - a)),
        decreases b,
    {
        assert(t.take(b - a).drop_last() =~= t.take(b - 1 - a));
        b -= 1;
    }
    assert(t.take(b - a) =~= v@.subrange(a as int, b as int));
    text_between(&v, a, b)
}

/// Whether the text is empty once trimmed.
pub fn is_blank(s: &str) -> (b: bool)
    ensures
        b == (spec_trim(s@).len() == 0),
{
    trim(s).as_str().is_empty()
}

/// The pieces of `s` between the occurrences of `sep`.
pub open spec fn spec_split(s: Seq<char>, sep: char) -> Seq<Seq<char>>
    decreases s.len(),
{
    if s.len() == 0 {
        seq![Seq::<char>::empty()]
    } else {
        let init = spec_split(s.drop_last(), sep);
        if s.last() == sep {
            init.push(Seq::empty())
        } else {
            init.drop_last().push(init.last().push(s.last()))
        }
    }
}

/// A split text has at least one part.
pub proof fn split_nonempty(s: Seq<char>, sep: char)
    ensures
        spec_split(s, sep).len() > 0,
    decreases s.len(),
{
    if s.len() > 0 {
        split_nonempty(s.drop_last(), sep);
    }
}

/// A text without the separator is one piece.
pub proof fn split_without(s: Seq<char>, sep: char)
    requires
        forall|i: int| 0 <= i < s.len() ==> (#[trigger] s[i]) != sep,
    ensures
        spec_split(s, sep) == seq![s],
    decreases s.len(),
{
    if s.len() > 0 {
        let init = s.drop_last();
        assert forall|i: int| 0 <= i < init.len() implies (#[trigger] init[i]) != sep by {
            assert(init[i] == s[i]);
        }
        split_without(init, sep);
        assert(init.push(s.last()) =~= s);
        assert(spec_split(s, sep) =~= seq![s]);
    } else {
        assert(s =~= Seq::empty());
    }
}

/// `str::split` on one character.
pub fn split(s: &str, sep: char) -> (r: Vec<String>)
    ensures
        texts(r@) == spec_split(s@, sep),
{
    broadcast use texts_push, texts_empty;

    let v = chars_of(s);
    let mut done: Vec<String> = Vec::new();
    let mut cur = String::new();
    let mut i: usize = 0;
    assert(v@.take(0) =~= Seq::empty());
    assert(texts(done@).push(cur@) =~= spec_split(v@.take(0), sep));
    while i < v.len()
        invariant
            i <= v.len(),
            texts(done@).push(cur@) == spec_split(v@.take(i as int), sep),
        decreases v.len() - i,
    {
        let c = v[i];
        let ghost before = texts(done@).push(cur@);
        proof {
            assert(v@.take(i + 1).drop_last() =~= v@.take(i as int));
            assert(before.drop_last() =~= texts(done@));
            assert(before.last() == cur@);
        }
        if c == sep {
            done.push(cur);
            cur = String::new();
        } else {
            cur.push(c);
        }
        i += 1;
        assert(texts(done@).push(cur@) =~= spec_split(v@.take(i as int), sep));
    }
    assert(v@.take(v@.len() as int) =~= v@);
    done.push(cur);
    done
}

/// Whether `p` is a prefix of `s`.
pub open spec fn spec_starts(s: Seq<char>, p: Seq<char>) -> bool {
    p.len() <= s.len() && s.take(p.len() as int) == p
}

/// Whether `p` is a suffix of `s`.
pub open spec fn spec_ends(s: Seq<char>, p: Seq<char>) -> bool {
    p.len() <= s.len() && s.skip(s.len() - p.len()) == p
}

/// `str::starts_with`.
pub fn starts_with(s: &str, p: &str) -> (b: bool)
    ensures
        b == spec_starts(s@, p@),
{
    let n: usize = s.unicode_len();
    let m: usize = p.unicode_len();
    m <= n && same(s.substring_char(0, m), p)
}

/// `str::ends_with`.
pub fn ends_with(s: &str, p: &str) -> (b: bool)
    ensures
        b == spec_ends(s@, p@),
{
    let n: usize = s.unicode_len();
    let m: usize = p.unicode_len();
    if m > n {
        return false;
    }
    assert(s@.skip(n - m) =~= s@.subrange(n - m, n as int));
    same(s.substring_char(n - m, n), p)
}

/// `str::strip_prefix`.
pub fn strip_prefix(s: &str, p: &str) -> (r: Option<String>)
    ensures
        opt_text(r) == (if spec_starts(s@, p@) {
            Some(s@.skip(p@.len() as int))
        } else {
            None
        }),
{
    if starts_with(s, p) {
        let n: usize = s.unicode_len();
        let m: usize = p.unicode_len();
        assert(s@.skip(m as int) =~= s@.subrange(m as int, n as int));
        Some(s.substring_char(m, n).to_owned())
    } else {
        None
    }
}

/// Whether `p` stands in `s` at position `i`.
pub open spec fn spec_at(s: Seq<char>, p: Seq<char>, i: int) -> bool {
    0 <= i && i + p.len() <= s.len() && s.subrange(i, i + p.len()) == p
}

/// Whether `p` stands anywhere in `s`.
pub open spec fn spec_contains(s: Seq<char>, p: Seq<char>) -> bool {
    exists|i: int| spec_at(s, p, i)
}

/// The first position from `i` on at which `p` stands in `s`.
pub open spec fn spec_find_from(s: Seq<char>, p: Seq<char>, i: int) -> Option<int>
    decreases s.len() + 1 - i,
{
    if i + p.len() > s.len() {
        None
    } else if spec_at(s, p, i) {
        Some(i)
    } else {
        spec_find_from(s, p, i + 1)
    }
}

/// The first position at which `p` stands in `s`.
pub open spec fn spec_find(s: Seq<char>, p: Seq<char>) -> Option<int> {
    spec_find_from(s, p, 0)
}

/// The first position at which `p` stands in `s`.
pub fn find(s: &str, p: &str) -> (r: Option<usize>)
    ensures
        match r {
            Some(i) => spec_find(s@, p@) == Some(i as int) && spec_at(s@, p@, i as int),
            None => spec_find(s@, p@) is None && !spec_contains(s@, p@),
        },
{
    let n: usize = s.unicode_len();
    let m: usize = p.unicode_len();
    if m > n {
        return None;
    }
    let mut i: usize = 0;
    while i <= n - m
        invariant
            n == s@.len(),
            m == p@.len(),
            m <= n,
            i <= n - m,
            spec_find(s@, p@) == spec_find_from(s@, p@, i as int),
            forall|j: int| 0 <= j < i ==> !spec_at(s@, p@, j),
        decreases n - m + 1 - i,
    {
        if same(s.substring_char(i, i + m), p) {
            return Some(i);
        }
        assert(!spec_at(s@, p@, i as int));
        if i == n - m {
            assert(spec_find_from(s@, p@, i + 1) is None);
            return None;
        }
        i += 1;
    }
    None
}

/// The first position of `c` in `s` from `i` on.
pub open spec fn spec_index_from(s: Seq<char>, c: char, i: int) -> Option<int>
    decreases s.len() - i,
{
    if i < 0 || i >= s.len() {
        None
    } else if s[i] == c {
        Some(i)
    } else {
        spec_index_from(s, c, i + 1)
    }
}

/// The first occurrence of a character is where none stands before it.
pub proof fn first_index(s: Seq<char>, c: char, i: int, at: int)
    requires
        0 <= i <= at < s.len(),
        s[at] == c,
        forall|j: int| i <= j < at ==> (#[trigger] s[j]) != c,
    ensures
        spec_index_from(s, c, i) == Some(at),
    decreases at - i,
{
    if i < at {
        first_index(s, c, i + 1, at);
    }
}

/// The two sides of the first `c`.
pub open spec fn spec_split_once(s: Seq<char>, c: char) -> Option<(Seq<char>, Seq<char>)> {
    match spec_index_from(s, c, 0) {
        Some(i) => Some((s.take(i), s.skip(i + 1))),
        None => None,
    }
}

/// The first position of a character.
pub fn index_of(v: &Vec<char>, c: char) -> (r: Option<usize>)
    ensures
        match r {
            Some(i) => i < v.len() && spec_index_from(v@, c, 0) == Some(i as int),
            None => spec_index_from(v@, c, 0) is None,
        },
{
    let mut i: usize = 0;
    while i < v.len()
        invariant
            i <= v.len(),
            spec_index_from(v@, c, 0) == spec_index_from(v@, c, i as int),
        decreases v.len() - i,
    {
        if v[i] == c {
            return Some(i);
        }
        i += 1;
    }
    None
}

/// `str::split_once` on a character.
pub fn split_once(s: &str, c: char) -> (r: Option<(String, String)>)
    ensures
        (match r {
            Some(p) => Some((p.0@, p.1@)),
            None => None,
        }) == spec_split_once(s@, c),
{
    let v = chars_of(s);
    match index_of(&v, c) {
        Some(i) => {
            let a = text_between(&v, 0, i);
            let b = text_between(&v, i + 1, v.len());
            assert(v@.subrange(0, i as int) =~= s@.take(i as int));
            assert(v@.subrange(i + 1, v@.len() as int) =~= s@.skip(i + 1));
            Some((a, b))
        },
        None => None,
    }
}

/// `str::contains` on a text.
pub fn contains(s: &str, p: &str) -> (b: bool)
    ensures
        b == spec_contains(s@, p@),
{
    find(s, p).is_some()
}

/// `str::contains` on a character.
pub fn has_char(s: &str, c: char) -> (b: bool)
    ensures
        b == s@.contains(c),
{
    let v = chars_of(s);
    let mut i: usize = 0;
    while i < v.len()
        invariant
            i <= v.len(),
            v@ == s@,
            forall|j: int| 0 <= j < i ==> v@[j] != c,
        decreases v.len() - i,
    {
        if v[i] == c {
            assert(s@[i as int] == c);
            return true;
        }
        i += 1;
    }
    false
}

/// Whether some character of the text is a control character.
pub open spec fn spec_any_control(s: Seq<char>) -> bool {
    exists|i: int| 0 <= i < s.len() && is_control_char(#[trigger] s[i])
}

/// Whether the text holds a control character.
pub fn any_control(s: &str) -> (b: bool)
    ensures
        b == spec_any_control(s@),
{
    let v = chars_of(s);
    let mut i: usize = 0;
    while i < v.len()
        invariant
            i <= v.len(),
            v@ == s@,
            forall|j: int| 0 <= j < i ==> !is_control_char(#[trigger] v@[j]),
        decreases v.len() - i,
    {
        if is_control(v[i]) {
            return true;
        }
        i += 1;
    }
    false
}

/// At most the first `n` characters.
pub open spec fn spec_head(s: Seq<char>, n: nat) -> Seq<char> {
    if s.len() <= n {
        s
    } else {
        s.take(n as int)
    }
}

/// `s.chars().take(n).collect()`.
pub fn head(s: &str, n: usize) -> (r: String)
    ensures
        r@ == spec_head(s@, n as nat),
{
    let len: usize = s.unicode_len();
    if len <= n {
        s.to_owned()
    } else {
        s.substring_char(0, n).to_owned()
    }
}

pub open spec fn spec_lower(c: char) -> char {
    if 'A' <= c <= 'Z' {
        (c as int + 32) as char
    } else {
        c
    }
}

/// ASCII lower case of one character.
pub fn lower_char(c: char) -> (r: char)
    ensures
        r == spec_lower(c),
{
    if 'A' <= c && c <= 'Z' {
        let b: u8 = c as u8;
        let r: u8 = b + 32;
        r as char
    } else {
        c
    }
}

/// The text in ASCII lower case.
pub open spec fn spec_ascii_lower(s: Seq<char>) -> Seq<char> {
    s.map_values(|c: char| spec_lower(c))
}

/// `str::to_ascii_lowercase`.
pub fn ascii_lower(s: &str) -> (r: String)
    ensures
        r@ == spec_ascii_lower(s@),
{
    let v = chars_of(s);
    let mut r = String::new();
    let mut i: usize = 0;
    while i < v.len()
        invariant
            i <= v.len(),
            r@ =~= spec_ascii_lower(v@.take(i as int)),
        decreases v.len() - i,
    {
        r.push(lower_char(v[i]));
        i += 1;
    }
    assert(v@.take(v@.len() as int) =~= v@);
    r
}

/// The lower-case text of a text, in Unicode's sense.
pub uninterp spec fn unicode_lower(s: Seq<char>) -> Seq<char>;

/// The lower-case text of a text: letter by letter where it is ASCII.
pub open spec fn spec_lowercase(s: Seq<char>) -> Seq<char> {
    if is_ascii_chars(s) {
        spec_ascii_lower(s)
    } else {
        unicode_lower(s)
    }
}

/// `str::to_lowercase`. Its result is named, not spelled out; on ASCII text it is the
/// ASCII lower case.
#[verifier::external_body]
pub(crate) fn lowercase(s: &str) -> (r: String)
    ensures
        r@ == unicode_lower(s@),
        is_ascii_chars(s@) ==> r@ == spec_ascii_lower(s@),
{
    s.to_lowercase()
}

pub open spec fn digit_char(n: nat) -> char {
    if n == 0 { '0' } else if n == 1 { '1' } else if n == 2 { '2' } else if n == 3 { '3' }
    else if n == 4 { '4' } else if n == 5 { '5' } else if n == 6 { '6' } else if n == 7 { '7' }
    else if n == 8 { '8' } else if n == 9 { '9' } else if n == 10 { 'a' } else if n == 11 { 'b' }
    else if n == 12 { 'c' } else if n == 13 { 'd' } else if n == 14 { 'e' } else { 'f' }
}

fn digit(n: u64) -> (c: char)
    requires
        n < 16,
    ensures
        c == digit_char(n as nat),
{
    if n == 0 { '0' } else if n == 1 { '1' } else if n == 2 { '2' } else if n == 3 { '3' }
    else if n == 4 { '4' } else if n == 5 { '5' } else if n == 6 { '6' } else if n == 7 { '7' }
    else if n == 8 { '8' } else if n == 9 { '9' } else if n == 10 { 'a' } else if n == 11 { 'b' }
    else if n == 12 { 'c' } else if n == 13 { 'd' } else if n == 14 { 'e' } else { 'f' }
}

/// A number in decimal.
pub open spec fn spec_decimal(n: nat) -> Seq<char>
    decreases n,
{
    if n < 10 {
        seq![digit_char(n)]
    } else {
        spec_decimal(n / 10).push(digit_char(n % 10))
    }
}

/// The decimal rendering of a number.
pub fn decimal(n: u64) -> (s: String)
    ensures
        s@ == spec_decimal(n as nat),
    decreases n,
{
    if n < 10 {
        let mut s = String::new();
        s.push(digit(n));
        assert(s@ =~= seq![digit_char(n as nat)]);
        s
    } else {
        let mut s = decimal(n / 10);
        s.push(digit(n % 10));
        s
    }
}

/// The value of a run of decimal digits.
pub open spec fn digits_value(s: Seq<char>) -> nat
    decreases s.len(),
{
    if s.len() == 0 {
        0
    } else {
        10 * digits_value(s.drop_last()) + (s.last() as int - '0' as int) as nat
    }
}

pub open spec fn all_digits(s: Seq<char>) -> bool {
    forall|i: int| 0 <= i < s.len() ==> is_digit_char(#[trigger] s[i])
}

/// The digits of an unsigned number: a leading `+` is allowed.
pub open spec fn number_digits(s: Seq<char>) -> Seq<char> {
    if s.len() > 1 && s[0] == '+' {
        s.skip(1)
    } else {
        s
    }
}

/// The unsigned number that the text reads as, where it is one of at most `max`.
pub open spec fn spec_number(s: Seq<char>, max: nat) -> Option<nat> {
    let d = number_digits(s);
    if d.len() > 0 && all_digits(d) && digits_value(d) <= max {
        Some(digits_value(d))
    } else {
        None
    }
}

proof fn digits_value_monotone(s: Seq<char>, i: int)
    requires
        0 <= i <= s.len(),
    ensures
        digits_value(s.take(i)) <= digits_value(s),
    decreases s.len() - i,
{
    if i < s.len() {
        digits_value_monotone(s, i + 1);
        assert(s.take(i + 1).drop_last() =~= s.take(i));
    } else {
        assert(s.take(i) =~= s);
    }
}

/// `str::parse::<u64>`, also bounded by `max`.
pub fn parse_number(s: &str, max: u64) -> (r: Option<u64>)
    ensures
        match r {
            Some(n) => spec_number(s@, max as nat) == Some(n as nat),
            None => spec_number(s@, max as nat) is None,
        },
{
    let v = chars_of(s);
    let start: usize = if v.len() > 1 && v[0] == '+' { 1 } else { 0 };
    let ghost d = number_digits(s@);
    assert(d =~= v@.skip(start as int));
    if start == v.len() {
        return None;
    }
    let mut n: u64 = 0;
    let mut i: usize = start;
    assert(d.take(0) =~= Seq::empty());
    while i < v.len()
        invariant
            start <= i <= v.len(),
            d == v@.skip(start as int),
            d == number_digits(s@),
            v@ == s@,
            n == digits_value(d.take(i - start)),
            n <= max,
            forall|j: int| 0 <= j < i - start ==> is_digit_char(#[trigger] d[j]),
        decreases v.len() - i,
    {
        let c = v[i];
        assert(c == d[i - start]);
        if c < '0' || c > '9' {
            return None;
        }
        let x: u64 = (c as u8 - '0' as u8) as u64;
        assert(d.take(i + 1 - start).drop_last() =~= d.take(i - start));
        let wide: u128 = n as u128 * 10 + x as u128;
        assert(wide == digits_value(d.take(i + 1 - start)));
        if wide > max as u128 {
            proof {
                digits_value_monotone(d, i + 1 - start);
            }
            return None;
        }
        n = wide as u64;
        i += 1;
    }
    assert(d.take(d.len() as int) =~= d);
    Some(n)
}

/// The text with each character replaced by what `f` makes of it.
pub open spec fn flat(s: Seq<char>, f: spec_fn(char) -> Seq<char>) -> Seq<char>
    decreases s.len(),
{
    if s.len() == 0 {
        Seq::empty()
    } else {
        flat(s.drop_last(), f) + f(s.last())
    }
}

/// What stands for one character in HTML text.
pub open spec fn escaped(c: char) -> Seq<char> {
    if c == '&' {
        "&amp;"@
    } else if c == '<' {
        "&lt;"@
    } else if c == '>' {
        "&gt;"@
    } else if c == '"' {
        "&quot;"@
    } else if c == '\'' {
        "&#39;"@
    } else {
        seq![c]
    }
}

/// The text, safe to stand in HTML text and quoted attributes.
pub open spec fn spec_html_escape(s: Seq<char>) -> Seq<char> {
    flat(s, |c: char| escaped(c))
}

/// Escapes a text for HTML.
pub fn html_escape(s: &str) -> (r: String)
    ensures
        r@ == spec_html_escape(s@),
{
    let v = chars_of(s);
    let mut r = String::new();
    let mut i: usize = 0;
    assert(v@.take(0) =~= Seq::empty());
    while i < v.len()
        invariant
            i <= v.len(),
            r@ == spec_html_escape(v@.take(i as int)),
        decreases v.len() - i,
    {
        let c = v[i];
        assert(v@.take(i + 1).drop_last() =~= v@.take(i as int));
        if c == '&' {
            r.append("&amp;");
        } else if c == '<' {
            r.append("&lt;");
        } else if c == '>' {
            r.append("&gt;");
        } else if c == '"' {
            r.append("&quot;");
        } else if c == '\'' {
            r.append("&#39;");
        } else {
            let ghost before = r@;
            r.push(c);
            assert(r@ =~= before + seq![c]);
        }
        i += 1;
    }
    assert(v@.take(v@.len() as int) =~= v@);
    r
}

/// Escaped text holds none of `<`, `>`, `"` and `'`: it cannot open a tag or leave a quoted
/// attribute.
pub proof fn escaped_text_has_no_markup(s: Seq<char>, i: int)
    requires
        0 <= i < spec_html_escape(s).len(),
    ensures
        spec_html_escape(s)[i] != '<',
        spec_html_escape(s)[i] != '>',
        spec_html_escape(s)[i] != '"',
        spec_html_escape(s)[i] != '\'',
    decreases s.len(),
{
    let init = spec_html_escape(s.drop_last());
    if i < init.len() {
        escaped_text_has_no_markup(s.drop_last(), i);
    } else {
        reveal_strlit("&amp;");
        reveal_strlit("&lt;");
        reveal_strlit("&gt;");
        reveal_strlit("&quot;");
        reveal_strlit("&#39;");
        assert(spec_html_escape(s)[i] == escaped(s.last())[i - init.len()]);
    }
}

/// Whether two names are the same but for ASCII case.
pub open spec fn same_name(a: Seq<char>, b: Seq<char>) -> bool {
    spec_ascii_lower(a) == spec_ascii_lower(b)
}

/// Whether a list holds a name, but for ASCII case.
pub open spec fn spec_has_name(list: Seq<String>, name: Seq<char>) -> bool {
    exists|i: int| 0 <= i < list.len() && same_name((#[trigger] list[i])@, name)
}

/// `str::eq_ignore_ascii_case`.
pub fn names_match(a: &str, b: &str) -> (r: bool)
    ensures
        r == same_name(a@, b@),
{
    ascii_lower(a) == ascii_lower(b)
}

/// Whether the list holds the name, but for ASCII case.
pub fn has_name(list: &Vec<String>, name: &str) -> (b: bool)
    ensures
        b == spec_has_name(list@, name@),
{
    let mut i: usize = 0;
    while i < list.len()
        invariant
            i <= list.len(),
            forall|j: int| 0 <= j < i ==> !same_name((#[trigger] list@[j])@, name@),
        decreases list.len() - i,
    {
        if names_match(list[i].as_str(), name) {
            return true;
        }
        i += 1;
    }
    false
}

/// The text, where there is one and it is not blank.
pub open spec fn spec_nonblank(o: Option<String>) -> Option<String> {
    if o is Some && spec_trim(o->0@).len() > 0 {
        o
    } else {
        None
    }
}

/// The optional text, kept as it is where it is not blank.
pub fn nonblank(o: &Option<String>) -> (r: Option<String>)
    ensures
        r == spec_nonblank(*o),
{
    match o {
        Some(s) => if is_blank(s.as_str()) {
            None
        } else {
            Some(s.clone())
        },
        None => None,
    }
}

/// The trimmed text, where there is one and it is not blank.
pub open spec fn spec_trimmed(o: Option<String>) -> Option<Seq<char>> {
    if o is Some && spec_trim(o->0@).len() > 0 {
        Some(spec_trim(o->0@))
    } else {
        None
    }
}

/// The optional text without surrounding white space, where it is not blank.
pub fn trimmed(o: &Option<String>) -> (r: Option<String>)
    ensures
        opt_text(r) == spec_trimmed(*o),
{
    match o {
        Some(s) => {
            let t = trim(s.as_str());
            if t.as_str().is_empty() {
                None
            } else {
                Some(t)
            }
        },
        None => None,
    }
}

proof fn trim_start_keeps(s: Seq<char>, i: int)
    requires
        0 <= i < spec_trim_start(s).len(),
    ensures
        s.contains(spec_trim_start(s)[i]),
    decreases s.len(),
{
    if s.len() > 0 && is_white(s[0]) {
        trim_start_keeps(s.skip(1), i);
        let j = choose|j: int| 0 <= j < s.skip(1).len() && s.skip(1)[j] == spec_trim_start(s)[i];
        assert(s[j + 1] == spec_trim_start(s)[i]);
    }
}

proof fn trim_end_keeps(s: Seq<char>, i: int)
    requires
        0 <= i < spec_trim_end(s).len(),
    ensures
        spec_trim_end(s).len() <= s.len(),
        s[i] == spec_trim_end(s)[i],
    decreases s.len(),
{
    if s.len() > 0 && is_white(s.last()) {
        trim_end_keeps(s.drop_last(), i);
    }
}

/// Trimming adds no character: each one left stood in the text.
pub proof fn trim_keeps(s: Seq<char>, i: int)
    requires
        0 <= i < spec_trim(s).len(),
    ensures
        s.contains(spec_trim(s)[i]),
{
    let t = spec_trim_start(s);
    trim_end_keeps(t, i);
    trim_start_keeps(s, i);
}

pub open spec fn spec_upper(c: char) -> char {
    if 'a' <= c <= 'z' {
        (c as int - 32) as char
    } else {
        c
    }
}

/// ASCII upper case of one character.
pub fn upper_char(c: char) -> (r: char)
    ensures
        r == spec_upper(c),
{
    if 'a' <= c && c <= 'z' {
        let b: u8 = c as u8;
        let r: u8 = b - 32;
        r as char
    } else {
        c
    }
}

/// The text in ASCII upper case.
pub open spec fn spec_ascii_upper(s: Seq<char>) -> Seq<char> {
    s.map_values(|c: char| spec_upper(c))
}

/// `str::to_ascii_uppercase`.
pub fn ascii_upper(s: &str) -> (r: String)
    ensures
        r@ == spec_ascii_upper(s@),
{
    let v = chars_of(s);
    let mut r = String::new();
    let mut i: usize = 0;
    while i < v.len()
        invariant
            i <= v.len(),
            r@ =~= spec_ascii_upper(v@.take(i as int)),
        decreases v.len() - i,
    {
        r.push(upper_char(v[i]));
        i += 1;
    }
    assert(v@.take(v@.len() as int) =~= v@);
    r
}

/// The pieces of `s` between white space, the empty ones included.
pub open spec fn white_pieces(s: Seq<char>) -> Seq<Seq<char>>
    decreases s.len(),
{
    if s.len() == 0 {
        seq![Seq::<char>::empty()]
    } else {
        let init = white_pieces(s.drop_last());
        if is_white(s.last()) {
            init.push(Seq::empty())
        } else {
            init.drop_last().push(init.last().push(s.last()))
        }
    }
}

pub open spec fn word_rule() -> spec_fn(Seq<char>) -> Option<Seq<char>> {
    |piece: Seq<char>|
        if piece.len() > 0 {
            Some(piece)
        } else {
            None
        }
}

/// The words of a text: what stands between white space.
pub open spec fn spec_words(s: Seq<char>) -> Seq<Seq<char>> {
    collect(white_pieces(s), word_rule())
}

/// `str::split_whitespace`.
pub fn words(s: &str) -> (r: Vec<String>)
    ensures
        texts(r@) == spec_words(s@),
{
    broadcast use texts_push, texts_empty;

    let v = chars_of(s);
    let mut done: Vec<String> = Vec::new();
    let mut cur = String::new();
    let ghost f = word_rule();
    let mut i: usize = 0;
    assert(v@.take(0) =~= Seq::empty());
    assert(white_pieces(v@.take(0)).drop_last() =~= Seq::empty());
    while i < v.len()
        invariant
            i <= v.len(),
            f == word_rule(),
            white_pieces(v@.take(i as int)).len() > 0,
            cur@ == white_pieces(v@.take(i as int)).last(),
            texts(done@) == collect(white_pieces(v@.take(i as int)).drop_last(), f),
        decreases v.len() - i,
    {
        let c = v[i];
        let ghost pieces = white_pieces(v@.take(i as int));
        let ghost next = white_pieces(v@.take(i + 1));
        assert(v@.take(i + 1).drop_last() =~= v@.take(i as int));
        if is_white_space(c) {
            assert(next.drop_last() =~= pieces);
            if !cur.as_str().is_empty() {
                done.push(cur);
            }
            cur = String::new();
        } else {
            assert(next.drop_last() =~= pieces.drop_last());
            cur.push(c);
        }
        i += 1;
    }
    assert(v@.take(v@.len() as int) =~= v@);
    if !cur.as_str().is_empty() {
        done.push(cur);
    }
    done
}

pub open spec fn without_cr(line: Seq<char>) -> Seq<char> {
    if line.len() > 0 && line.last() == '\r' {
        line.drop_last()
    } else {
        line
    }
}

/// The lines of a text: what ends with a line feed, without it and a carriage return before it,
/// and what is left at the end.
pub open spec fn spec_lines(s: Seq<char>) -> Seq<Seq<char>> {
    let p = spec_split(s, '\n');
    let ended = p.drop_last().map_values(|l: Seq<char>| without_cr(l));
    if p.last().len() == 0 {
        ended
    } else {
        ended.push(p.last())
    }
}

/// `str::lines`.
pub fn lines(s: &str) -> (r: Vec<String>)
    ensures
        texts(r@) == spec_lines(s@),
{
    broadcast use texts_push, texts_empty;

    let pieces = split(s, '\n');
    let ghost p = texts(pieces@);
    proof {
        split_nonempty(s@, '\n');
    }
    assert(p.len() == pieces@.len());
    let last: usize = pieces.len() - 1;
    let mut r: Vec<String> = Vec::new();
    let mut i: usize = 0;
    while i < last
        invariant
            i <= last,
            last == pieces.len() - 1,
            p == texts(pieces@),
            r.len() == i,
            forall|j: int| 0 <= j < i ==> (#[trigger] r@[j])@ == without_cr(p[j]),
        decreases last - i,
    {
        let line = pieces[i].as_str();
        assert(p[i as int] == line@);
        let n: usize = line.unicode_len();
        if n > 0 && line.get_char(n - 1) == '\r' {
            let cut = line.substring_char(0, n - 1).to_owned();
            assert(cut@ =~= line@.drop_last());
            r.push(cut);
        } else {
            r.push(owned(line));
        }
        i += 1;
    }
    assert(texts(r@) =~= p.drop_last().map_values(|l: Seq<char>| without_cr(l)));
    assert(p[last as int] == pieces@[last as int]@);
    if !pieces[last].as_str().is_empty() {
        let tail = pieces[last].clone();
        r.push(tail);
    }
    r
}

/// The text without the prefix `p`, as often as it stands at the front.
pub open spec fn spec_strip_prefixes(s: Seq<char>, p: Seq<char>) -> Seq<char>
    decreases s.len(),
{
    if p.len() > 0 && spec_starts(s, p) {
        spec_strip_prefixes(s.skip(p.len() as int), p)
    } else {
        s
    }
}

/// `str::trim_start_matches` on a text.
pub fn strip_prefixes(s: &str, p: &str) -> (r: String)
    requires
        p@.len() > 0,
    ensures
        r@ == spec_strip_prefixes(s@, p@),
{
    let mut cur = owned(s);
    while starts_with(cur.as_str(), p)
        invariant
            p@.len() > 0,
            spec_strip_prefixes(s@, p@) == spec_strip_prefixes(cur@, p@),
        decreases cur@.len(),
    {
        match strip_prefix(cur.as_str(), p) {
            Some(rest) => {
                cur = rest;
            },
            None => {},
        }
    }
    cur
}

/// The text without the characters `c` at its end.
pub open spec fn spec_trim_end_char(s: Seq<char>, c: char) -> Seq<char>
    decreases s.len(),
{
    if s.len() > 0 && s.last() == c {
        spec_trim_end_char(s.drop_last(), c)
    } else {
        s
    }
}

/// `str::trim_end_matches` on a character.
pub fn trim_end_char(s: &str, c: char) -> (r: String)
    ensures
        r@ == spec_trim_end_char(s@, c),
{
    let v = chars_of(s);
    let mut n: usize = v.len();
    assert(v@.take(n as int) =~= s@);
    while n > 0 && v[n - 1] == c
        invariant
            n <= v.len(),
            spec_trim_end_char(s@, c) == spec_trim_end_char(v@.take(n as int), c),
        decreases n,
    {
        assert(v@.take(n as int).drop_last() =~= v@.take(n - 1));
        n -= 1;
    }
    assert(v@.take(n as int) =~= v@.subrange(0, n as int));
    text_between(&v, 0, n)
}

/// A number in hexadecimal, in exactly `width` digits (the last ones).
pub open spec fn spec_hex(n: nat, width: nat) -> Seq<char>
    decreases width,
{
    if width == 0 {
        Seq::empty()
    } else {
        spec_hex(n / 16, (width - 1) as nat).push(digit_char(n % 16))
    }
}

/// The hexadecimal rendering of a number, padded with zeros to `width` digits.
pub fn hex_fixed(n: u64, width: usize) -> (s: String)
    ensures
        s@ == spec_hex(n as nat, width as nat),
    decreases width,
{
    if width == 0 {
        String::new()
    } else {
        let mut s = hex_fixed(n / 16, width - 1);
        s.push(digit(n % 16));
        s
    }
}

/// The texts with `sep` between them.
pub open spec fn spec_join(v: Seq<String>, sep: Seq<char>) -> Seq<char>
    decreases v.len(),
{
    if v.len() == 0 {
        Seq::empty()
    } else if v.len() == 1 {
        v[0]@
    } else {
        spec_join(v.drop_last(), sep) + sep + v.last()@
    }
}

/// `[String]::join`.
pub fn join_with(v: &Vec<String>, sep: &str) -> (r: String)
    ensures
        r@ == spec_join(v@, sep@),
{
    let mut r = String::new();
    let mut i: usize = 0;
    assert(v@.take(0) =~= Seq::empty());
    while i < v.len()
        invariant
            i <= v.len(),
            r@ == spec_join(v@.take(i as int), sep@),
        decreases v.len() - i,
    {
        assert(v@.take(i + 1).drop_last() =~= v@.take(i as int));
        if i == 0 {
            r = v[0].clone();
        } else {
            r.append(sep);
            r.append(v[i].as_str());
        }
        i += 1;
    }
    assert(v@.take(v@.len() as int) =~= v@);
    r
}

/// A list without the repeats that stand next to each other.
pub open spec fn without_repeats(s: Seq<Seq<char>>) -> Seq<Seq<char>>
    decreases s.len(),
{
    if s.len() == 0 {
        s
    } else {
        let init = without_repeats(s.drop_last());
        if s.len() > 1 && s[s.len() - 2] == s.last() {
            init
        } else {
            init.push(s.last())
        }
    }
}

/// `Vec::dedup`.
pub fn dedup(names: &Vec<String>) -> (r: Vec<String>)
    ensures
        texts(r@) == without_repeats(texts(names@)),
{
    broadcast use texts_push, texts_empty;

    let ghost all = texts(names@);
    let mut r: Vec<String> = Vec::new();
    let mut i: usize = 0;
    assert(all.take(0) =~= Seq::empty());
    while i < names.len()
        invariant
            i <= names.len(),
            all == texts(names@),
            texts(r@) == without_repeats(all.take(i as int)),
        decreases names.len() - i,
    {
        proof {
            assert(all.take(i + 1).drop_last() =~= all.take(i as int));
            assert(all[i as int] == names@[i as int]@);
            if i > 0 {
                assert(all[i - 1] == names@[i - 1]@);
            }
        }
        if i == 0 || !same(names[i - 1].as_str(), names[i].as_str()) {
            let keep = names[i].clone();
            r.push(keep);
        }
        i += 1;
    }
    assert(all.take(all.len() as int) =~= all);
    r
}

/// The value of the first `name=value` among the pairs.
pub open spec fn first_value(pairs: Seq<Seq<char>>, name: Seq<char>) -> Option<Seq<char>>
    decreases pairs.len(),
{
    if pairs.len() == 0 {
        None
    } else {
        match spec_split_once(pairs[0], '=') {
            Some((k, v)) => if spec_trim(k) == name {
                Some(spec_trim(v))
            } else {
                first_value(pairs.skip(1), name)
            },
            None => first_value(pairs.skip(1), name),
        }
    }
}

/// The value of the first `name=value` in a list whose pairs `sep` separates.
pub fn find_value(list: &str, sep: char, name: &str) -> (r: Option<String>)
    ensures
        opt_text(r) == first_value(spec_split(list@, sep), name@),
{
    let pairs = split(list, sep);
    let ghost all = texts(pairs@);
    let mut i: usize = 0;
    assert(all.skip(0) =~= all);
    while i < pairs.len()
        invariant
            i <= pairs.len(),
            all == texts(pairs@),
            all == spec_split(list@, sep),
            first_value(all, name@) == first_value(all.skip(i as int), name@),
        decreases pairs.len() - i,
    {
        assert(all.skip(i as int)[0] == pairs@[i as int]@);
        assert(all.skip(i as int).skip(1) =~= all.skip(i + 1));
        if let Some(kv) = split_once(pairs[i].as_str(), '=') {
            let k = trim(kv.0.as_str());
            if same(k.as_str(), name) {
                return Some(trim(kv.1.as_str()));
            }
        }
        i += 1;
    }
    assert(all.skip(i as int) =~= Seq::empty());
    None
}

/// The text without the characters `c` at its front.
pub open spec fn spec_trim_start_char(s: Seq<char>, c: char) -> Seq<char>
    decreases s.len(),
{
    if s.len() > 0 && s[0] == c {
        spec_trim_start_char(s.skip(1), c)
    } else {
        s
    }
}

/// `str::trim_matches` on a character.
pub open spec fn spec_trim_char(s: Seq<char>, c: char) -> Seq<char> {
    spec_trim_end_char(spec_trim_start_char(s, c), c)
}

/// `str::trim_start_matches` on a character.
pub fn trim_start_char(s: &str, c: char) -> (r: String)
    ensures
        r@ == spec_trim_start_char(s@, c),
{
    let v = chars_of(s);
    let mut i: usize = 0;
    assert(v@.skip(0) =~= s@);
    while i < v.len() && v[i] == c
        invariant
            i <= v.len(),
            spec_trim_start_char(s@, c) == spec_trim_start_char(v@.skip(i as int), c),
        decreases v.len() - i,
    {
        assert(v@.skip(i as int).skip(1) =~= v@.skip(i + 1));
        i += 1;
    }
    let rest = text_between(&v, i, v.len());
    assert(rest@ =~= v@.skip(i as int));
    rest
}

/// `str::trim_matches` on a character.
pub fn trim_char(s: &str, c: char) -> (r: String)
    ensures
        r@ == spec_trim_char(s@, c),
{
    let rest = trim_start_char(s, c);
    trim_end_char(rest.as_str(), c)
}

/// What follows the last `c`, or the whole text where there is none.
pub open spec fn spec_after_last(s: Seq<char>, c: char) -> Seq<char> {
    spec_split(s, c).last()
}

/// The last piece of the text cut at `c`.
pub fn after_last(s: &str, c: char) -> (r: String)
    ensures
        r@ == spec_after_last(s@, c),
{
    let pieces = split(s, c);
    proof {
        split_nonempty(s@, c);
    }
    let last: usize = pieces.len() - 1;
    assert(texts(pieces@)[last as int] == pieces@[last as int]@);
    pieces[last].clone()
}

/// The text with every occurrence of `p`, from the front on, replaced.
pub open spec fn spec_replace(s: Seq<char>, p: Seq<char>, by: Seq<char>) -> Seq<char>
    decreases s.len(),
{
    if s.len() == 0 || p.len() == 0 {
        s
    } else if spec_at(s, p, 0) {
        by + spec_replace(s.skip(p.len() as int), p, by)
    } else {
        seq![s[0]] + spec_replace(s.skip(1), p, by)
    }
}

/// `str::replace`.
pub fn replace(s: &str, p: &str, by: &str) -> (r: String)
    requires
        p@.len() > 0,
    ensures
        r@ == spec_replace(s@, p@, by@),
{
    let v = chars_of(s);
    let n: usize = v.len();
    let m: usize = p.unicode_len();
    let mut out = String::new();
    let mut i: usize = 0;
    assert(v@.skip(0) =~= s@);
    assert(out@ + spec_replace(s@, p@, by@) =~= spec_replace(s@, p@, by@));
    while i < n
        invariant
            i <= n,
            n == v.len(),
            v@ == s@,
            m == p@.len(),
            m > 0,
            out@ + spec_replace(v@.skip(i as int), p@, by@) == spec_replace(s@, p@, by@),
        decreases n - i,
    {
        let ghost before = out@;
        let ghost rest = v@.skip(i as int);
        if n - i >= m && same(s.substring_char(i, i + m), p) {
            assert(rest.subrange(0, m as int) =~= p@);
            assert(spec_at(rest, p@, 0));
            assert(rest.skip(m as int) =~= v@.skip(i + m));
            out.append(by);
            assert(out@ + spec_replace(v@.skip(i + m), p@, by@) =~= before + (by@ + spec_replace(
                v@.skip(i + m),
                p@,
                by@,
            )));
            i += m;
        } else {
            proof {
                if spec_at(rest, p@, 0) {
                    assert(s@.subrange(i as int, i + m) =~= rest.subrange(0, m as int));
                }
            }
            assert(rest.skip(1) =~= v@.skip(i + 1));
            out.push(v[i]);
            assert(out@ + spec_replace(v@.skip(i + 1), p@, by@) =~= before + (seq![rest[0]]
                + spec_replace(v@.skip(i + 1), p@, by@)));
            i += 1;
        }
    }
    assert(v@.skip(i as int) =~= Seq::empty());
    assert(out@ + Seq::<char>::empty() =~= out@);
    out
}

/// The texts of a list, each once, in the order in which they first come.
pub open spec fn spec_distinct(s: Seq<Seq<char>>) -> Seq<Seq<char>>
    decreases s.len(),
{
    if s.len() == 0 {
        s
    } else {
        let before = spec_distinct(s.drop_last());
        if before.contains(s.last()) {
            before
        } else {
            before.push(s.last())
        }
    }
}

/// The texts of a list, each once, in the order in which they first come.
pub fn distinct(names: &Vec<String>) -> (r: Vec<String>)
    ensures
        texts(r@) == spec_distinct(texts(names@)),
{
    broadcast use texts_push, texts_empty;

    let ghost all = texts(names@);
    let mut r: Vec<String> = Vec::new();
    let mut i: usize = 0;
    assert(all.take(0) =~= Seq::empty());
    while i < names.len()
        invariant
            i <= names.len(),
            all == texts(names@),
            texts(r@) == spec_distinct(all.take(i as int)),
        decreases names.len() - i,
    {
        proof {
            assert(all.take(i + 1).drop_last() =~= all.take(i as int));
            assert(all[i as int] == names@[i as int]@);
        }
        if !has_text(&r, names[i].as_str()) {
            let keep = names[i].clone();
            r.push(keep);
        }
        i += 1;
    }
    assert(all.take(all.len() as int) =~= all);
    r
}

/// Each text is there once, and none is lost or added.
pub proof fn distinct_keeps_each_once(s: Seq<Seq<char>>, x: Seq<char>)
    ensures
        spec_distinct(s).no_duplicates(),
        spec_distinct(s).contains(x) <==> s.contains(x),
    decreases s.len(),
{
    if s.len() > 0 {
        let init = s.drop_last();
        let before = spec_distinct(init);
        distinct_keeps_each_once(init, x);
        let now = spec_distinct(s);
        if s.contains(x) {
            let i = choose|i: int| 0 <= i < s.len() && s[i] == x;
            if i < init.len() {
                assert(init[i] == x);
                let k = choose|k: int| 0 <= k < before.len() && before[k] == x;
                assert(now[k] == x);
            } else if !before.contains(x) {
                assert(now[before.len() as int] == x);
            }
        }
        if now.contains(x) && !s.contains(x) {
            let k = choose|k: int| 0 <= k < now.len() && now[k] == x;
            if k < before.len() {
                assert(before[k] == x);
                let i = choose|i: int| 0 <= i < init.len() && init[i] == x;
                assert(s[i] == x);
            } else {
                assert(s[s.len() - 1] == x);
            }
        }
    }
}

/// A number in hexadecimal.
pub open spec fn spec_hexadecimal(n: nat) -> Seq<char>
    decreases n,
{
    if n < 16 {
        seq![digit_char(n)]
    } else {
        spec_hexadecimal(n / 16).push(digit_char(n % 16))
    }
}

/// The hexadecimal rendering of a number.
pub fn hexadecimal(n: u128) -> (s: String)
    ensures
        s@ == spec_hexadecimal(n as nat),
    decreases n,
{
    if n < 16 {
        let mut s = String::new();
        s.push(digit(n as u64));
        assert(s@ =~= seq![digit_char(n as nat)]);
        s
    } else {
        let mut s = hexadecimal(n / 16);
        s.push(digit((n % 16) as u64));
        s
    }
}

proof fn digits_differ(a: nat, b: nat)
    requires
        a < 16,
        b < 16,
        digit_char(a) == digit_char(b),
    ensures
        a == b,
{
}

/// Two numbers have two renderings.
pub proof fn hexadecimal_tells_numbers_apart(a: nat, b: nat)
    requires
        spec_hexadecimal(a) == spec_hexadecimal(b),
    ensures
        a == b,
    decreases a,
{
    let x = spec_hexadecimal(a);
    let y = spec_hexadecimal(b);
    if a < 16 && b < 16 {
        assert(x[0] == digit_char(a));
        assert(y[0] == digit_char(b));
        digits_differ(a, b);
    } else if a >= 16 && b >= 16 {
        assert(x.last() == digit_char(a % 16));
        assert(y.last() == digit_char(b % 16));
        digits_differ(a % 16, b % 16);
        assert(x.drop_last() =~= spec_hexadecimal(a / 16));
        assert(y.drop_last() =~= spec_hexadecimal(b / 16));
        hexadecimal_tells_numbers_apart(a / 16, b / 16);
        assert(a == 16 * (a / 16) + a % 16);
        assert(b == 16 * (b / 16) + b % 16);
    } else if a >= 16 {
        hexadecimal_is_not_empty(a / 16);
        assert(x.len() >= 2);
        assert(y.len() == 1);
    } else {
        hexadecimal_is_not_empty(b / 16);
        assert(y.len() >= 2);
        assert(x.len() == 1);
    }
}

proof fn hexadecimal_is_not_empty(n: nat)
    ensures
        spec_hexadecimal(n).len() > 0,
    decreases n,
{
    if n >= 16 {
        hexadecimal_is_not_empty(n / 16);
    }
}

/// The decimal rendering of a wide number.
pub fn decimal_wide(n: u128) -> (s: String)
    ensures
        s@ == spec_decimal(n as nat),
    decreases n,
{
    if n < 10 {
        let mut s = String::new();
        s.push(digit(n as u64));
        assert(s@ =~= seq![digit_char(n as nat)]);
        s
    } else {
        let mut s = decimal_wide(n / 10);
        s.push(digit((n % 10) as u64));
        s
    }
}

/// Two texts joined by the separator split into the pieces of the one, then those of the other.
pub proof fn split_of_joined(a: Seq<char>, b: Seq<char>, sep: char)
    ensures
        spec_split(a + seq![sep] + b, sep) == spec_split(a, sep) + spec_split(b, sep),
    decreases b.len(),
{
    let s = a + seq![sep] + b;
    split_nonempty(a, sep);
    if b.len() == 0 {
        assert(s.drop_last() =~= a);
        assert(s.last() == sep);
        assert(spec_split(s, sep) =~= spec_split(a, sep) + spec_split(b, sep));
    } else {
        let init = b.drop_last();
        split_of_joined(a, init, sep);
        split_nonempty(init, sep);
        assert(s.drop_last() =~= a + seq![sep] + init);
        assert(s.last() == b.last());
        assert(spec_split(s, sep) =~= spec_split(a, sep) + spec_split(b, sep));
    }
}

/// The pieces of a split text, joined again.
pub open spec fn joined_pieces(pieces: Seq<Seq<char>>, sep: char) -> Seq<char>
    decreases pieces.len(),
{
    if pieces.len() == 0 {
        Seq::empty()
    } else if pieces.len() == 1 {
        pieces[0]
    } else {
        joined_pieces(pieces.drop_last(), sep) + seq![sep] + pieces.last()
    }
}

/// A split text is made of its pieces: joined by the separator they are the text again, and none
/// of them holds the separator.
pub proof fn split_text_joins_again(s: Seq<char>, sep: char)
    ensures
        joined_pieces(spec_split(s, sep), sep) == s,
        forall|i: int|
            0 <= i < spec_split(s, sep).len() ==> !(#[trigger] spec_split(s, sep)[i]).contains(sep),
    decreases s.len(),
{
    let p = spec_split(s, sep);
    if s.len() == 0 {
        assert(p[0] =~= s);
    } else {
        let init = s.drop_last();
        let q = spec_split(init, sep);
        split_text_joins_again(init, sep);
        split_nonempty(init, sep);
        assert(s =~= init.push(s.last()));
        if s.last() == sep {
            assert(p.drop_last() =~= q);
            assert(joined_pieces(p, sep) =~= init + seq![sep] + Seq::empty());
            assert(joined_pieces(p, sep) =~= s);
        } else {
            assert(p.drop_last() =~= q.drop_last());
            assert(joined_pieces(p, sep) =~= joined_pieces(q, sep).push(s.last()));
            assert(!p.last().contains(sep)) by {
                assert(p.last() == q.last().push(s.last()));
                if p.last().contains(sep) {
                    let k = choose|k: int| 0 <= k < p.last().len() && p.last()[k] == sep;
                    assert(k < q.last().len());
                    assert(q[q.len() - 1][k] == sep);
                    assert(q[q.len() - 1].contains(sep));
                }
            }
            assert forall|i: int| 0 <= i < p.len() implies !(#[trigger] p[i]).contains(sep) by {
                if i < p.len() - 1 {
                    assert(p[i] == q[i]);
                }
            }
        }
    }
}

proof fn trim_start_cuts_white(s: Seq<char>)
    ensures
        spec_trim_start(s).len() <= s.len(),
        spec_trim_start(s) == s.skip(s.len() - spec_trim_start(s).len()),
        forall|i: int|
            0 <= i < s.len() - spec_trim_start(s).len() ==> is_white(#[trigger] s[i]),
        spec_trim_start(s).len() > 0 ==> !is_white(spec_trim_start(s)[0]),
    decreases s.len(),
{
    if s.len() > 0 && is_white(s[0]) {
        let rest = s.skip(1);
        trim_start_cuts_white(rest);
        assert(forall|i: int| 1 <= i < s.len() ==> #[trigger] s[i] == rest[i - 1]);
        assert(spec_trim_start(s) =~= s.skip(s.len() - spec_trim_start(s).len()));
    } else {
        assert(s.skip(0) =~= s);
    }
}

proof fn trim_end_cuts_white(s: Seq<char>)
    ensures
        spec_trim_end(s).len() <= s.len(),
        spec_trim_end(s) == s.take(spec_trim_end(s).len() as int),
        forall|i: int|
            spec_trim_end(s).len() <= i < s.len() ==> is_white(#[trigger] s[i]),
        spec_trim_end(s).len() > 0 ==> !is_white(spec_trim_end(s).last()),
    decreases s.len(),
{
    if s.len() > 0 && is_white(s.last()) {
        let init = s.drop_last();
        trim_end_cuts_white(init);
        assert(forall|i: int| 0 <= i < init.len() ==> #[trigger] s[i] == init[i]);
        assert(spec_trim_end(s) =~= s.take(spec_trim_end(s).len() as int));
    } else {
        assert(s.take(s.len() as int) =~= s);
    }
}

/// Trimming cuts white space and nothing else: what is left stands in the text, with white space
/// alone before and behind it, and neither begins nor ends with any.
pub proof fn trimming_cuts_white_space_alone(s: Seq<char>)
    ensures
        exists|from: int, to: int|
            0 <= from <= to <= s.len() && spec_trim(s) == #[trigger] s.subrange(from, to) && (
            forall|i: int| 0 <= i < from ==> is_white(#[trigger] s[i])) && (forall|i: int|
                to <= i < s.len() ==> is_white(#[trigger] s[i])),
        spec_trim(s).len() > 0 ==> !is_white(spec_trim(s)[0]) && !is_white(spec_trim(s).last()),
        spec_trim(s).len() == 0 <==> forall|i: int| 0 <= i < s.len() ==> is_white(#[trigger] s[i]),
        spec_trim(spec_trim(s)) == spec_trim(s),
{
    let a = spec_trim_start(s);
    trim_start_cuts_white(s);
    trim_end_cuts_white(a);
    let t = spec_trim(s);
    let from = s.len() - a.len();
    let to = from + t.len();
    assert(t =~= s.subrange(from, to));
    assert forall|i: int| to <= i < s.len() implies is_white(#[trigger] s[i]) by {
        assert(a[i - from] == s[i]);
    }
    if t.len() > 0 {
        assert(t[0] == a[0]);
        assert(s[from] == t[0]);
    }
}

/// A number's digits read as the number.
pub proof fn a_decimal_reads_back(n: nat)
    ensures
        digits_value(spec_decimal(n)) == n,
        all_digits(spec_decimal(n)),
        spec_decimal(n).len() > 0,
        n > 0 ==> spec_decimal(n)[0] != '0',
    decreases n,
{
    let d = spec_decimal(n);
    if n < 10 {
        assert(d.drop_last() =~= Seq::empty());
        assert(d.last() == digit_char(n));
        assert(digits_value(Seq::<char>::empty()) == 0);
    } else {
        a_decimal_reads_back(n / 10);
        assert(d.drop_last() =~= spec_decimal(n / 10));
        assert(d[0] == spec_decimal(n / 10)[0]);
        assert(n == 10 * (n / 10) + n % 10);
    }
}

/// Case is all that is lost: the lower case of a text has its length, and where a character is no
/// capital letter it stays.
pub proof fn lower_case_changes_capitals_alone(s: Seq<char>, i: int)
    requires
        0 <= i < s.len(),
    ensures
        spec_ascii_lower(s).len() == s.len(),
        !('A' <= s[i] <= 'Z') ==> spec_ascii_lower(s)[i] == s[i],
        'A' <= s[i] <= 'Z' ==> spec_ascii_lower(s)[i] as int == s[i] as int + 32,
        spec_ascii_upper(s).len() == s.len(),
        !('a' <= s[i] <= 'z') ==> spec_ascii_upper(s)[i] == s[i],
        'a' <= s[i] <= 'z' ==> spec_ascii_upper(s)[i] as int == s[i] as int - 32,
{
}

/// What follows the last separator: the text ends with it, and no separator stands in it.
pub proof fn what_follows_the_last(s: Seq<char>, c: char)
    ensures
        !spec_after_last(s, c).contains(c),
        spec_ends(s, spec_after_last(s, c)),
        s.contains(c) ==> spec_after_last(s, c).len() < s.len() && s[s.len() - 1 - spec_after_last(
            s,
            c,
        ).len()] == c,
        !s.contains(c) ==> spec_after_last(s, c) == s,
    decreases s.len(),
{
    split_text_joins_again(s, c);
    split_nonempty(s, c);
    let r = spec_after_last(s, c);
    assert(spec_split(s, c)[spec_split(s, c).len() - 1] == r);
    if s.len() > 0 {
        let init = s.drop_last();
        what_follows_the_last(init, c);
        split_nonempty(init, c);
        let q = spec_after_last(init, c);
        if s.last() == c {
            assert(r.len() == 0);
            assert(s.skip(s.len() as int) =~= r);
            assert(s[s.len() - 1] == c);
        } else {
            assert(r == q.push(s.last()));
            assert(s.skip(s.len() - r.len()) =~= r) by {
                assert(init.skip(init.len() - q.len()) == q);
                assert forall|i: int| 0 <= i < r.len() implies s.skip(s.len() - r.len())[i]
                    == r[i] by {
                    if i < q.len() {
                        assert(init.skip(init.len() - q.len())[i] == q[i]);
                    }
                }
            }
            if s.contains(c) {
                let k = choose|k: int| 0 <= k < s.len() && s[k] == c;
                assert(init[k] == c);
            }
            if init.contains(c) {
                let k = choose|k: int| 0 <= k < init.len() && init[k] == c;
                assert(s[k] == c);
            }
            if !s.contains(c) {
                assert(r =~= s);
            }
        }
    } else {
        assert(r =~= s);
        assert(s.skip(0) =~= r);
    }
}

proof fn trim_start_char_cuts_it(s: Seq<char>, c: char)
    ensures
        spec_trim_start_char(s, c).len() <= s.len(),
        spec_trim_start_char(s, c) == s.skip(s.len() - spec_trim_start_char(s, c).len()),
        spec_trim_start_char(s, c).len() > 0 ==> spec_trim_start_char(s, c)[0] != c,
        forall|i: int|
            0 <= i < s.len() - spec_trim_start_char(s, c).len() ==> #[trigger] s[i] == c,
    decreases s.len(),
{
    if s.len() > 0 && s[0] == c {
        let rest = s.skip(1);
        trim_start_char_cuts_it(rest, c);
        let kept = spec_trim_start_char(rest, c);
        assert(s.skip(s.len() - kept.len()) =~= rest.skip(rest.len() - kept.len()));
        assert forall|i: int| 0 <= i < s.len() - kept.len() implies #[trigger] s[i] == c by {
            if i > 0 {
                assert(rest[i - 1] == s[i]);
            }
        }
    } else {
        assert(s.skip(0) =~= s);
    }
}

proof fn trim_end_char_cuts_it(s: Seq<char>, c: char)
    ensures
        spec_trim_end_char(s, c).len() <= s.len(),
        spec_trim_end_char(s, c) == s.take(spec_trim_end_char(s, c).len() as int),
        spec_trim_end_char(s, c).len() > 0 ==> spec_trim_end_char(s, c).last() != c,
        forall|i: int|
            spec_trim_end_char(s, c).len() <= i < s.len() ==> #[trigger] s[i] == c,
    decreases s.len(),
{
    if s.len() > 0 && s.last() == c {
        let init = s.drop_last();
        trim_end_char_cuts_it(init, c);
        let kept = spec_trim_end_char(init, c);
        assert(s.take(kept.len() as int) =~= init.take(kept.len() as int));
        assert forall|i: int| kept.len() <= i < s.len() implies #[trigger] s[i] == c by {
            if i < init.len() {
                assert(init[i] == s[i]);
            }
        }
    } else {
        assert(s.take(s.len() as int) =~= s);
    }
}

/// Trimming a character cuts it from both ends, and nothing else: what is left stands in the text,
/// neither begins nor ends with the character, and a text without the character stays.
pub proof fn trimming_cuts_the_character_alone(s: Seq<char>, c: char)
    ensures
        spec_trim_char(s, c).len() > 0 ==> spec_trim_char(s, c)[0] != c && spec_trim_char(
            s,
            c,
        ).last() != c,
        !s.contains(c) ==> spec_trim_char(s, c) == s,
        exists|a: int, b: int|
            0 <= a <= b <= s.len() && spec_trim_char(s, c) == #[trigger] s.subrange(a, b) && (
            forall|i: int| 0 <= i < a || b <= i < s.len() ==> #[trigger] s[i] == c),
{
    let t = spec_trim_start_char(s, c);
    let u = spec_trim_end_char(t, c);
    trim_start_char_cuts_it(s, c);
    trim_end_char_cuts_it(t, c);
    let a = s.len() - t.len();
    let b = a + u.len();
    assert(u =~= s.subrange(a, b));
    assert forall|i: int| 0 <= i < a || b <= i < s.len() implies #[trigger] s[i] == c by {
        if b <= i {
            assert(t[i - a] == s[i]);
        }
    }
    if u.len() > 0 {
        assert(u[0] == t[0]);
    }
    if !s.contains(c) {
        if a > 0 {
            assert(s[0] == c);
        }
        if b < s.len() {
            assert(s[b] == c);
        }
        assert(s.subrange(0, s.len() as int) =~= s);
    }
}

proof fn found_from_is_first(s: Seq<char>, p: Seq<char>, i: int)
    requires
        0 <= i,
    ensures
        match spec_find_from(s, p, i) {
            Some(k) => i <= k && k + p.len() <= s.len() && s.subrange(k, k + p.len()) == p && (
            forall|j: int| i <= j < k ==> #[trigger] s.subrange(j, j + p.len()) != p),
            None => forall|j: int|
                i <= j && j + p.len() <= s.len() ==> #[trigger] s.subrange(j, j + p.len()) != p,
        },
    decreases s.len() + 1 - i,
{
    if i + p.len() <= s.len() {
        assert(spec_at(s, p, i) <==> s.subrange(i, i + p.len()) == p);
        if !spec_at(s, p, i) {
            found_from_is_first(s, p, i + 1);
        }
    }
}

/// A text is found where it first stands in another one, and not found where it stands nowhere.
pub proof fn a_text_is_found_where_it_first_stands(s: Seq<char>, p: Seq<char>)
    ensures
        match spec_find(s, p) {
            Some(k) => 0 <= k && k + p.len() <= s.len() && s.subrange(k, k + p.len()) == p && (
            forall|j: int| 0 <= j < k ==> #[trigger] s.subrange(j, j + p.len()) != p),
            None => forall|j: int|
                0 <= j && j + p.len() <= s.len() ==> #[trigger] s.subrange(j, j + p.len()) != p,
        },
        spec_contains(s, p) <==> exists|j: int|
            0 <= j && j + p.len() <= s.len() && #[trigger] s.subrange(j, j + p.len()) == p,
{
    found_from_is_first(s, p, 0);
    if spec_contains(s, p) {
        let j = choose|j: int| spec_at(s, p, j);
        assert(s.subrange(j, j + p.len()) == p);
    }
    if exists|j: int| 0 <= j && j + p.len() <= s.len() && #[trigger] s.subrange(j, j + p.len()) == p {
        let j = choose|j: int|
            0 <= j && j + p.len() <= s.len() && #[trigger] s.subrange(j, j + p.len()) == p;
        assert(spec_at(s, p, j));
    }
}

/// A text that is cut once is cut at the first place: what stands before holds no more of the
/// character, and the two parts with it between them are the text.
pub proof fn a_text_is_cut_at_the_first_place(s: Seq<char>, c: char)
    ensures
        match spec_split_once(s, c) {
            Some((a, b)) => !a.contains(c) && a + seq![c] + b == s,
            None => !s.contains(c),
        },
{
    index_is_first(s, c, 0);
    match spec_index_from(s, c, 0) {
        Some(k) => {
            assert(s.take(k) + seq![c] + s.skip(k + 1) =~= s);
        },
        None => {},
    }
}

proof fn index_is_first(s: Seq<char>, c: char, i: int)
    requires
        0 <= i,
    ensures
        match spec_index_from(s, c, i) {
            Some(k) => i <= k < s.len() && s[k] == c && forall|j: int|
                i <= j < k ==> #[trigger] s[j] != c,
            None => forall|j: int| i <= j < s.len() ==> #[trigger] s[j] != c,
        },
    decreases s.len() - i,
{
    if i < s.len() && s[i] != c {
        index_is_first(s, c, i + 1);
    }
}

/// Of neighbours that are alike one is kept: no two stand next to each other any more, and every
/// text that was there still is.
pub proof fn repeats_go_and_nothing_else(s: Seq<Seq<char>>, x: Seq<char>)
    ensures
        without_repeats(s).contains(x) <==> s.contains(x),
        without_repeats(s).len() > 0 <==> s.len() > 0,
        s.len() > 0 ==> without_repeats(s).last() == s.last(),
        forall|i: int|
            0 <= i < without_repeats(s).len() - 1 ==> #[trigger] without_repeats(s)[i]
                != without_repeats(s)[i + 1],
    decreases s.len(),
{
    if s.len() > 0 {
        let init = s.drop_last();
        repeats_go_and_nothing_else(init, x);
        let before = without_repeats(init);
        let now = without_repeats(s);
        assert(init.push(s.last()) =~= s);
        assert(s.contains(x) <==> init.contains(x) || x == s.last()) by {
            if init.contains(x) {
                let i = choose|i: int| 0 <= i < init.len() && init[i] == x;
                assert(s[i] == x);
            }
            if x == s.last() {
                assert(s[s.len() - 1] == x);
            }
            if s.contains(x) && x != s.last() {
                let i = choose|i: int| 0 <= i < s.len() && s[i] == x;
                assert(init[i] == x);
            }
        }
        if s.len() > 1 && s[s.len() - 2] == s.last() {
            assert(init.last() == s.last());
        } else {
            assert(now == before.push(s.last()));
            assert(now.contains(x) <==> before.contains(x) || x == s.last()) by {
                if before.contains(x) {
                    let i = choose|i: int| 0 <= i < before.len() && before[i] == x;
                    assert(now[i] == x);
                }
                if x == s.last() {
                    assert(now[now.len() - 1] == x);
                }
                if now.contains(x) && x != s.last() {
                    let i = choose|i: int| 0 <= i < now.len() && now[i] == x;
                    assert(before[i] == x);
                }
            }
            if s.len() > 1 {
                assert(init.last() == s[s.len() - 2]);
                assert(before.last() == init.last());
            }
        }
    }
}

/// The words of a text hold no white space, and none of them is empty.
pub proof fn words_hold_no_white_space(s: Seq<char>, k: int)
    requires
        0 <= k < spec_words(s).len(),
    ensures
        spec_words(s)[k].len() > 0,
        forall|i: int| 0 <= i < spec_words(s)[k].len() ==> !is_white(#[trigger] spec_words(s)[k][i]),
{
    collected_has_source(white_pieces(s), word_rule(), k);
    let j = choose|j: int|
        0 <= j < white_pieces(s).len() && word_rule()(#[trigger] white_pieces(s)[j]) == Some(
            spec_words(s)[k],
        );
    pieces_hold_no_white_space(s, j);
}

proof fn pieces_hold_no_white_space(s: Seq<char>, j: int)
    requires
        0 <= j < white_pieces(s).len(),
    ensures
        forall|i: int|
            0 <= i < white_pieces(s)[j].len() ==> !is_white(#[trigger] white_pieces(s)[j][i]),
    decreases s.len(),
{
    if s.len() > 0 {
        let before = white_pieces(s.drop_last());
        if j < before.len() {
            pieces_hold_no_white_space(s.drop_last(), j);
        }
        if before.len() > 0 {
            pieces_hold_no_white_space(s.drop_last(), before.len() - 1);
        }
    }
}

/// The lines of a text are read one after the other: a line, without its end, and then the lines
/// of the rest.
pub proof fn lines_are_read_in_turn(line: Seq<char>, rest: Seq<char>)
    requires
        !line.contains('\n'),
    ensures
        line.len() == 0 || line.last() != '\r' ==> spec_lines(line + seq!['\n'] + rest) == seq![line]
            + spec_lines(rest),
        spec_lines(line + seq!['\r'] + seq!['\n'] + rest) == seq![line] + spec_lines(rest),
        line.len() > 0 ==> spec_lines(line) == seq![line],
        spec_lines(Seq::empty()).len() == 0,
{
    split_of_joined(line, rest, '\n');
    split_without(line, '\n');
    split_nonempty(rest, '\n');
    let p = spec_split(rest, '\n');
    let whole = spec_split(line + seq!['\n'] + rest, '\n');
    assert(whole.last() == p.last());
    assert(whole.drop_last() =~= seq![line] + p.drop_last());
    if line.len() == 0 || line.last() != '\r' {
        assert(spec_lines(line + seq!['\n'] + rest) =~= seq![line] + spec_lines(rest));
    }
    let cr = line + seq!['\r'];
    assert forall|i: int| 0 <= i < cr.len() implies cr[i] != '\n' by {
        if i < line.len() {
            assert(cr[i] == line[i]);
        }
    }
    split_of_joined(cr, rest, '\n');
    split_without(cr, '\n');
    let other = spec_split(cr + seq!['\n'] + rest, '\n');
    assert(other.last() == p.last());
    assert(other.drop_last() =~= seq![cr] + p.drop_last());
    assert(cr.drop_last() =~= line);
    assert(spec_lines(cr + seq!['\n'] + rest) =~= seq![line] + spec_lines(rest));
    let single = spec_split(line, '\n');
    assert(single.drop_last() =~= Seq::<Seq<char>>::empty());
    if line.len() > 0 {
        assert(spec_lines(line) =~= seq![line]);
    }
    let none = spec_split(Seq::<char>::empty(), '\n');
    assert(none.drop_last() =~= Seq::<Seq<char>>::empty());
    assert(spec_lines(Seq::<char>::empty()) =~= Seq::<Seq<char>>::empty());
}

/// A number that is written out reads as that number where it is not too large, and as none where
/// it is.
pub proof fn a_number_reads_as_itself(n: nat, max: nat)
    ensures
        n <= max ==> spec_number(spec_decimal(n), max) == Some(n),
        n > max ==> spec_number(spec_decimal(n), max) is None,
{
    a_decimal_reads_back(n);
    let d = spec_decimal(n);
    assert(is_digit_char(d[0]));
}

/// What reads as a number is made of digits alone, but for a sign in front.
pub proof fn a_number_is_made_of_digits(s: Seq<char>, max: nat)
    requires
        spec_number(s, max) is Some,
    ensures
        s.len() > 0,
        forall|i: int| 1 <= i < s.len() ==> '0' <= #[trigger] s[i] <= '9',
        '0' <= s[0] <= '9' || s[0] == '+' && s.len() > 1,
        spec_number(s, max)->0 <= max,
{
    let d = number_digits(s);
    if s.len() > 1 && s[0] == '+' {
        assert forall|i: int| 1 <= i < s.len() implies '0' <= #[trigger] s[i] <= '9' by {
            assert(is_digit_char(d[i - 1]));
        }
    } else {
        assert forall|i: int| 0 <= i < s.len() implies '0' <= #[trigger] s[i] <= '9' by {
            assert(is_digit_char(d[i]));
        }
        assert('0' <= s[0] <= '9');
    }
}

/// Escaping goes by the character, and changes none but the five that mean something in markup.
pub proof fn escaping_goes_by_the_character(a: Seq<char>, b: Seq<char>, c: char)
    ensures
        spec_html_escape(a + b) == spec_html_escape(a) + spec_html_escape(b),
        c != '&' && c != '<' && c != '>' && c != '"' && c != '\'' ==> spec_html_escape(seq![c])
            == seq![c],
        spec_html_escape(seq!['<']) == "&lt;"@,
        spec_html_escape(seq!['>']) == "&gt;"@,
        spec_html_escape(seq!['&']) == "&amp;"@,
        spec_html_escape(seq!['"']) == "&quot;"@,
        spec_html_escape(seq!['\'']) == "&#39;"@,
    decreases b.len(),
{
    assert forall|x: char| #[trigger] spec_html_escape(seq![x]) == escaped(x) by {
        assert(seq![x].drop_last() =~= Seq::<char>::empty());
        assert(spec_html_escape(Seq::<char>::empty()) =~= Seq::<char>::empty());
        assert(spec_html_escape(seq![x]) =~= escaped(x));
    }
    if b.len() == 0 {
        assert(a + b =~= a);
        assert(spec_html_escape(a) + spec_html_escape(b) =~= spec_html_escape(a));
    } else {
        escaping_goes_by_the_character(a, b.drop_last(), c);
        assert((a + b).drop_last() =~= a + b.drop_last());
        assert((a + b).last() == b.last());
        assert(spec_html_escape(a + b) =~= spec_html_escape(a) + spec_html_escape(b));
    }
}

/// Replacing changes a text at each place where the part stands, from the front, and nowhere else:
/// up to the first place it stays, and a text without the part stays as it is.
pub proof fn replacing_changes_each_place(s: Seq<char>, p: Seq<char>, by: Seq<char>, k: int)
    requires
        p.len() > 0,
        0 <= k <= s.len(),
        forall|j: int| 0 <= j < k ==> !spec_at(s, p, j),
    ensures
        k == s.len() ==> spec_replace(s, p, by) == s,
        k < s.len() && spec_at(s, p, k) ==> spec_replace(s, p, by) == s.take(k) + by + spec_replace(
            s.skip(k + p.len()),
            p,
            by,
        ),
    decreases s.len(),
{
    if s.len() > 0 && k > 0 {
        let rest = s.skip(1);
        assert(!spec_at(s, p, 0));
        assert forall|j: int| 0 <= j < k - 1 implies !spec_at(rest, p, j) by {
            assert(!spec_at(s, p, j + 1));
            if spec_at(rest, p, j) {
                assert(rest.subrange(j, j + p.len()) =~= s.subrange(j + 1, j + 1 + p.len()));
            }
        }
        replacing_changes_each_place(rest, p, by, k - 1);
        if k == s.len() {
            assert(seq![s[0]] + rest =~= s);
        } else if spec_at(s, p, k) {
            assert(rest.subrange(k - 1, k - 1 + p.len()) =~= s.subrange(k, k + p.len()));
            assert(spec_at(rest, p, k - 1));
            assert(rest.skip(k - 1 + p.len()) =~= s.skip(k + p.len()));
            assert(seq![s[0]] + (rest.take(k - 1) + by + spec_replace(
                s.skip(k + p.len()),
                p,
                by,
            )) =~= s.take(k) + by + spec_replace(s.skip(k + p.len()), p, by));
        }
    } else if k == 0 && s.len() > 0 && spec_at(s, p, 0) {
        assert(s.take(0) + by + spec_replace(s.skip(p.len() as int), p, by) =~= by + spec_replace(
            s.skip(p.len() as int),
            p,
            by,
        ));
    }
}

/// What is left when a prefix is taken off as often as it stands does not begin with it, and a text
/// that does not begin with it stays.
pub proof fn a_stripped_text_begins_otherwise(s: Seq<char>, p: Seq<char>)
    requires
        p.len() > 0,
    ensures
        !spec_starts(spec_strip_prefixes(s, p), p),
        !spec_starts(s, p) ==> spec_strip_prefixes(s, p) == s,
        spec_strip_prefixes(p + s, p) == spec_strip_prefixes(s, p),
    decreases s.len(),
{
    assert((p + s).take(p.len() as int) =~= p);
    assert((p + s).skip(p.len() as int) =~= s);
    if spec_starts(s, p) {
        a_stripped_text_begins_otherwise(s.skip(p.len() as int), p);
    }
}

/// Joining texts puts the separator between neighbours, and nothing before the first or behind the
/// last.
pub proof fn joining_puts_it_between(a: Seq<String>, b: Seq<String>, sep: Seq<char>)
    requires
        a.len() > 0,
        b.len() > 0,
    ensures
        spec_join(a + b, sep) == spec_join(a, sep) + sep + spec_join(b, sep),
        spec_join(seq![a[0]], sep) == a[0]@,
    decreases b.len(),
{
    let whole = a + b;
    assert(whole.last() == b.last());
    assert(whole.drop_last() =~= a + b.drop_last());
    if b.len() == 1 {
        assert(a + b.drop_last() =~= a);
    } else {
        joining_puts_it_between(a, b.drop_last(), sep);
        assert(spec_join(whole, sep) =~= spec_join(a, sep) + sep + spec_join(b, sep));
    }
}

/// A value is read by its name: what stands behind the first `=` of the first pair of that name,
/// without the white space around it.
pub proof fn a_value_is_read_by_its_name(
    before: Seq<Seq<char>>,
    name: Seq<char>,
    value: Seq<char>,
    after: Seq<Seq<char>>,
)
    requires
        !name.contains('='),
        forall|i: int|
            0 <= i < before.len() ==> match spec_split_once(#[trigger] before[i], '=') {
                Some((k, _)) => spec_trim(k) != spec_trim(name),
                None => true,
            },
    ensures
        first_value(before + seq![name + seq!['='] + value] + after, spec_trim(name)) == Some(
            spec_trim(value),
        ),
        first_value(before, spec_trim(name)) is None,
    decreases before.len(),
{
    let pair = name + seq!['='] + value;
    let whole = before + seq![pair] + after;
    if before.len() == 0 {
        assert(whole[0] == pair);
        assert(pair[name.len() as int] == '=');
        assert forall|i: int| 0 <= i < name.len() implies pair[i] != '=' by {
            assert(pair[i] == name[i]);
        }
        first_index(pair, '=', 0, name.len() as int);
        assert(pair.take(name.len() as int) =~= name);
        assert(pair.skip(name.len() as int + 1) =~= value);
    } else {
        let rest = before.skip(1);
        assert(whole[0] == before[0]);
        assert(whole.skip(1) =~= rest + seq![pair] + after);
        assert forall|i: int| 0 <= i < rest.len() implies match spec_split_once(
            #[trigger] rest[i],
            '=',
        ) {
            Some((k, _)) => spec_trim(k) != spec_trim(name),
            None => true,
        } by {
            assert(rest[i] == before[i + 1]);
        }
        a_value_is_read_by_its_name(rest, name, value, after);
    }
}

} // verus!
