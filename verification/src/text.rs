//! Text as sequences of characters: searching, trimming, splitting and decimal
//! numbers.

use vstd::prelude::*;
use vstd::utf8::encode_utf8;
use vstd::slice::slice_subrange;

verus! {

// ── Specification vocabulary ───────────────────────────────────────

/// Whether `c` has the Unicode property `White_Space`.
pub open spec fn is_space(c: char) -> bool {
    let n = c as int;
    ||| 9 <= n <= 13
    ||| n == 0x20
    ||| n == 0x85
    ||| n == 0xA0
    ||| n == 0x1680
    ||| 0x2000 <= n <= 0x200A
    ||| n == 0x2028
    ||| n == 0x2029
    ||| n == 0x202F
    ||| n == 0x205F
    ||| n == 0x3000
}

/// `s` without its leading white space.
pub open spec fn trim_start(s: Seq<char>) -> Seq<char>
    decreases s.len(),
{
    if s.len() > 0 && is_space(s[0]) {
        trim_start(s.skip(1))
    } else {
        s
    }
}

/// `s` without its trailing white space.
pub open spec fn trim_end(s: Seq<char>) -> Seq<char>
    decreases s.len(),
{
    if s.len() > 0 && is_space(s.last()) {
        trim_end(s.drop_last())
    } else {
        s
    }
}

/// `s` without white space at either end.
pub open spec fn trim(s: Seq<char>) -> Seq<char> {
    trim_end(trim_start(s))
}

/// `s` without the run of `c` that it ends with.
pub open spec fn strip_end(s: Seq<char>, c: char) -> Seq<char>
    decreases s.len(),
{
    if s.len() > 0 && s.last() == c {
        strip_end(s.drop_last(), c)
    } else {
        s
    }
}

/// `s` without the run of `c` that it begins with.
pub open spec fn strip_start(s: Seq<char>, c: char) -> Seq<char>
    decreases s.len(),
{
    if s.len() > 0 && s[0] == c {
        strip_start(s.skip(1), c)
    } else {
        s
    }
}

/// Whether `p` stands in `s` at position `i`.
pub open spec fn occurs_at(s: Seq<char>, p: Seq<char>, i: int) -> bool {
    &&& 0 <= i
    &&& i + p.len() <= s.len()
    &&& s.subrange(i, i + p.len()) == p
}

/// Whether `p` stands somewhere in `s`.
pub open spec fn has_text(s: Seq<char>, p: Seq<char>) -> bool {
    exists|i: int| #[trigger] occurs_at(s, p, i)
}

/// Whether `i` is the first position of `p` in `s`.
pub open spec fn first_at(s: Seq<char>, p: Seq<char>, i: int) -> bool {
    &&& occurs_at(s, p, i)
    &&& forall|j: int| 0 <= j < i ==> !#[trigger] occurs_at(s, p, j)
}

/// The first position of `p` in `s`, if there is one.
pub open spec fn find_text(s: Seq<char>, p: Seq<char>) -> Option<int> {
    if has_text(s, p) {
        Some(choose|i: int| #[trigger] first_at(s, p, i))
    } else {
        None
    }
}

/// The first position of the character `c` in `s`; the length of `s` where there
/// is none.
pub open spec fn index_or_len(s: Seq<char>, c: char) -> int
    decreases s.len(),
{
    if s.len() == 0 || s[0] == c {
        0
    } else {
        1 + index_or_len(s.skip(1), c)
    }
}

/// The pieces of `s` between the occurrences of `c`.
pub open spec fn split(s: Seq<char>, c: char) -> Seq<Seq<char>>
    decreases s.len(),
    via split_decreases
{
    let i = index_or_len(s, c);
    if i < s.len() {
        seq![s.take(i)] + split(s.skip(i + 1), c)
    } else {
        seq![s]
    }
}

#[via_fn]
proof fn split_decreases(s: Seq<char>, c: char) {
    lemma_index_or_len(s, c);
}

/// Whether `c` is an ASCII decimal digit.
pub open spec fn is_digit(c: char) -> bool {
    '0' <= c <= '9'
}

/// Whether every character of `s` is an ASCII decimal digit.
pub open spec fn all_digits(s: Seq<char>) -> bool {
    forall|i: int| 0 <= i < s.len() ==> is_digit(#[trigger] s[i])
}

/// The number that a run of decimal digits stands for.
pub open spec fn decimal_value(s: Seq<char>) -> nat
    decreases s.len(),
{
    if s.len() == 0 {
        0
    } else {
        10 * decimal_value(s.drop_last()) + (s.last() as nat - '0' as nat) as nat
    }
}

/// The number that `s` writes as decimal digits after an optional `+`.
pub open spec fn unsigned_value(s: Seq<char>) -> Option<int> {
    let digits = if s.len() > 0 && s[0] == '+' { s.skip(1) } else { s };
    if digits.len() > 0 && all_digits(digits) {
        Some(decimal_value(digits) as int)
    } else {
        None
    }
}

/// The number that `s` writes as decimal digits after an optional sign.
pub open spec fn signed_value(s: Seq<char>) -> Option<int> {
    if s.len() > 0 && s[0] == '-' {
        let digits = s.skip(1);
        if digits.len() > 0 && all_digits(digits) {
            Some(-(decimal_value(digits) as int))
        } else {
            None
        }
    } else {
        unsigned_value(s)
    }
}

/// `value` if it lies between `low` and `high`.
pub open spec fn within(value: Option<int>, low: int, high: int) -> Option<int> {
    match value {
        Some(n) => if low <= n <= high { Some(n) } else { None },
        None => None,
    }
}

/// The decimal digits of `n`, without leading zeros.
pub open spec fn digits_of(n: nat) -> Seq<char>
    decreases n,
{
    if n < 10 {
        seq![('0' as nat + n) as char]
    } else {
        digits_of(n / 10).push(('0' as nat + n % 10) as char)
    }
}

/// `s` with as many zeros before it as make it `width` characters long.
pub open spec fn zero_padded(s: Seq<char>, width: nat) -> Seq<char> {
    if s.len() < width {
        Seq::new((width - s.len()) as nat, |i: int| '0') + s
    } else {
        s
    }
}

/// The decimal form of `n`, with a minus sign where it is negative.
pub open spec fn decimal(n: int) -> Seq<char> {
    if n < 0 {
        seq!['-'] + digits_of((-n) as nat)
    } else {
        digits_of(n as nat)
    }
}

/// The decimal form of `n`, filled with zeros after the sign to `width` characters.
pub open spec fn decimal_padded(n: int, width: nat) -> Seq<char> {
    if n < 0 {
        seq!['-'] + zero_padded(digits_of((-n) as nat), (width - 1) as nat)
    } else {
        zero_padded(digits_of(n as nat), width)
    }
}

// ── Lemmas ─────────────────────────────────────────────────────────

pub proof fn lemma_index_or_len(s: Seq<char>, c: char)
    ensures
        0 <= index_or_len(s, c) <= s.len(),
        index_or_len(s, c) < s.len() ==> s[index_or_len(s, c)] == c,
        forall|i: int| 0 <= i < index_or_len(s, c) ==> s[i] != c,
    decreases s.len(),
{
    if s.len() > 0 && s[0] != c {
        lemma_index_or_len(s.skip(1), c);
        assert forall|i: int| 0 <= i < index_or_len(s, c) implies s[i] != c by {
            if i > 0 {
                assert(s[i] == s.skip(1)[i - 1]);
            }
        }
    }
}

/// A position that holds `c` and has no `c` before it is the first.
pub proof fn lemma_index_is(s: Seq<char>, c: char, i: int)
    requires
        0 <= i <= s.len(),
        i < s.len() ==> s[i] == c,
        forall|j: int| 0 <= j < i ==> s[j] != c,
    ensures
        index_or_len(s, c) == i,
{
    lemma_index_or_len(s, c);
}

pub proof fn lemma_first_at_exists(s: Seq<char>, p: Seq<char>, i: int)
    requires
        occurs_at(s, p, i),
    ensures
        exists|j: int| #[trigger] first_at(s, p, j) && j <= i,
    decreases i,
{
    if exists|j: int| 0 <= j < i && #[trigger] occurs_at(s, p, j) {
        let j = choose|j: int| 0 <= j < i && #[trigger] occurs_at(s, p, j);
        lemma_first_at_exists(s, p, j);
    } else {
        assert(first_at(s, p, i));
    }
}

pub proof fn lemma_find_text(s: Seq<char>, p: Seq<char>)
    ensures
        match find_text(s, p) {
            Some(i) => first_at(s, p, i),
            None => !has_text(s, p),
        },
{
    if has_text(s, p) {
        let i = choose|i: int| #[trigger] occurs_at(s, p, i);
        lemma_first_at_exists(s, p, i);
    }
}

/// The first position is unique.
pub proof fn lemma_find_is(s: Seq<char>, p: Seq<char>, i: int)
    requires
        first_at(s, p, i),
    ensures
        find_text(s, p) == Some(i),
{
    lemma_find_text(s, p);
    assert(occurs_at(s, p, i));
    let j = find_text(s, p)->0;
    assert(first_at(s, p, j));
    if j < i {
        assert(occurs_at(s, p, j));
    }
    if i < j {
        assert(occurs_at(s, p, i));
    }
}

/// The digits of a number stand for it, and are as many as it needs.
pub proof fn lemma_digits_of(n: nat)
    ensures
        all_digits(digits_of(n)),
        decimal_value(digits_of(n)) == n,
        n < 10 ==> digits_of(n).len() == 1,
        10 <= n < 100 ==> digits_of(n).len() == 2,
        100 <= n < 1000 ==> digits_of(n).len() == 3,
        1000 <= n < 10000 ==> digits_of(n).len() == 4,
    decreases n,
{
    if n < 10 {
        let s = digits_of(n);
        assert(s.drop_last() =~= Seq::<char>::empty());
        assert(decimal_value(s.drop_last()) == 0);
        assert(s.last() as nat == '0' as nat + n);
    } else {
        lemma_digits_of(n / 10);
        let s = digits_of(n);
        assert(s.drop_last() =~= digits_of(n / 10));
        assert(s.last() as nat == '0' as nat + n % 10);
        assert(is_digit(s.last()));
        assert forall|i: int| 0 <= i < s.len() implies is_digit(#[trigger] s[i]) by {
            if i < s.len() - 1 {
                assert(s[i] == digits_of(n / 10)[i]);
            }
        }
    }
}

/// A number below 100 is written with two digits.
pub proof fn lemma_two_digits(n: int)
    requires
        0 <= n < 100,
    ensures
        decimal_padded(n, 2).len() == 2,
        all_digits(decimal_padded(n, 2)),
        decimal_value(decimal_padded(n, 2)) == n,
{
    lemma_digits_of(n as nat);
    if n < 10 {
        let s = decimal_padded(n, 2);
        let digits = digits_of(n as nat);
        assert(s =~= seq!['0', digits[0]]);
        assert(s.drop_last() =~= seq!['0']);
        assert(seq!['0'].drop_last() =~= Seq::<char>::empty());
        assert(decimal_value(Seq::<char>::empty()) == 0);
        assert(decimal_value(seq!['0']) == 0);
        assert(digits.drop_last() =~= Seq::<char>::empty());
        assert(is_digit(digits[0]));
    }
}

/// Zeros in front of digits do not change the number.
proof fn lemma_leading_zeros(zeros: nat, s: Seq<char>)
    ensures
        decimal_value(Seq::new(zeros, |i: int| '0') + s) == decimal_value(s),
    decreases s.len(), zeros,
{
    let z = Seq::new(zeros, |i: int| '0');
    if s.len() == 0 {
        assert(z + s =~= z);
        if zeros > 0 {
            let fewer = Seq::new((zeros - 1) as nat, |i: int| '0');
            lemma_leading_zeros((zeros - 1) as nat, s);
            assert(fewer + s =~= fewer);
            assert(z.drop_last() =~= fewer);
        }
    } else {
        lemma_leading_zeros(zeros, s.drop_last());
        assert((z + s).drop_last() =~= z + s.drop_last());
    }
}

/// A number that is filled with zeros still stands for itself.
pub proof fn lemma_padded(n: int, width: nat)
    requires
        n >= 0,
    ensures
        all_digits(decimal_padded(n, width)),
        decimal_padded(n, width).len() > 0,
        decimal_value(decimal_padded(n, width)) == n,
{
    let digits = digits_of(n as nat);
    lemma_digits_of(n as nat);
    if digits.len() < width {
        let zeros = Seq::new((width - digits.len()) as nat, |i: int| '0');
        lemma_leading_zeros((width - digits.len()) as nat, digits);
        let s = decimal_padded(n, width);
        assert(s =~= zeros + digits);
        assert forall|i: int| 0 <= i < s.len() implies is_digit(#[trigger] s[i]) by {
            if i >= zeros.len() {
                assert(s[i] == digits[i - zeros.len()]);
            }
        }
    }
}

/// A number of at most four digits, filled to four characters, has four.
pub proof fn lemma_four_digits(n: int)
    requires
        0 <= n < 10000,
    ensures
        decimal_padded(n, 4).len() == 4,
        all_digits(decimal_padded(n, 4)),
        decimal_value(decimal_padded(n, 4)) == n,
{
    lemma_digits_of(n as nat);
    lemma_padded(n, 4);
}

/// A number is written with digits and a minus sign.
pub proof fn lemma_padded_characters(n: int, width: nat)
    requires
        width > 0,
    ensures
        decimal_padded(n, width).len() > 0,
        forall|i: int|
            0 <= i < decimal_padded(n, width).len() ==> is_digit(
                #[trigger] decimal_padded(n, width)[i],
            ) || decimal_padded(n, width)[i] == '-',
{
    if n >= 0 {
        lemma_padded(n, width);
    } else {
        let digits = decimal_padded(-n, (width - 1) as nat);
        lemma_padded(-n, (width - 1) as nat);
        assert(decimal_padded(n, width) =~= seq!['-'] + digits);
        assert forall|i: int| 0 <= i < decimal_padded(n, width).len() implies is_digit(
            #[trigger] decimal_padded(n, width)[i],
        ) || decimal_padded(n, width)[i] == '-' by {
            if i > 0 {
                assert(decimal_padded(n, width)[i] == digits[i - 1]);
            }
        }
    }
}

/// Digits are read as their number, with or without a sign allowed.
pub proof fn lemma_digits_read(s: Seq<char>)
    requires
        s.len() > 0,
        all_digits(s),
    ensures
        signed_value(s) == Some(decimal_value(s) as int),
        unsigned_value(s) == Some(decimal_value(s) as int),
{
    assert(is_digit(s[0]));
}

/// A split finds the text before the first mark, and splits the rest.
pub proof fn lemma_split_first(a: Seq<char>, c: char, rest: Seq<char>)
    requires
        !a.contains(c),
    ensures
        split(a + seq![c] + rest, c) == seq![a] + split(rest, c),
{
    let s = a + seq![c] + rest;
    assert forall|j: int| 0 <= j < a.len() implies s[j] != c by {
        assert(s[j] == a[j]);
        assert(a.contains(a[j]));
    }
    lemma_index_is(s, c, a.len() as int);
    assert(s.take(a.len() as int) =~= a);
    assert(s.skip((a.len() + 1) as int) =~= rest);
}

/// A text without a mark is one piece.
pub proof fn lemma_split_one(a: Seq<char>, c: char)
    requires
        !a.contains(c),
    ensures
        split(a, c) == seq![a],
{
    assert forall|j: int| 0 <= j < a.len() implies a[j] != c by {
        assert(a.contains(a[j]));
    }
    lemma_index_is(a, c, a.len() as int);
}

// ── Strings and characters ─────────────────────────────────────────

/// `String::push` appends the character to the string.
pub assume_specification[ String::push ](s: &mut String, c: char)
    ensures
        final(s)@ == old(s)@.push(c),
;

/// The characters of `s`.
pub fn chars_of(s: &str) -> (r: Vec<char>)
    ensures
        r@ == s@,
{
    let mut r: Vec<char> = Vec::new();
    for c in it: s.chars()
        invariant
            r@ == s@.take(it.index() as int),
            it.seq() == s@,
    {
        r.push(c);
    }
    r
}

/// The string that holds the characters `cs`.
pub fn text_of(cs: &[char]) -> (r: String)
    ensures
        r@ == cs@,
{
    let mut r = String::new();
    let mut i: usize = 0;
    while i < cs.len()
        invariant
            i <= cs@.len(),
            r@ == cs@.take(i as int),
        decreases cs@.len() - i,
    {
        r.push(cs[i]);
        i = i + 1;
        assert(cs@.take(i as int) == cs@.take(i - 1).push(cs@[i - 1]));
    }
    r
}

/// The number of bytes of `s` in UTF-8.
pub fn byte_len(s: &str) -> (r: usize)
    ensures
        r == encode_utf8(s@).len(),
{
    s.as_bytes().len()
}

/// Whether two runs of characters are the same.
pub fn same_chars(a: &[char], b: &[char]) -> (r: bool)
    ensures
        r == (a@ == b@),
{
    if a.len() != b.len() {
        return false;
    }
    let mut i: usize = 0;
    while i < a.len()
        invariant
            a@.len() == b@.len(),
            i <= a@.len(),
            forall|j: int| 0 <= j < i ==> a@[j] == b@[j],
        decreases a@.len() - i,
    {
        if a[i] != b[i] {
            return false;
        }
        i = i + 1;
    }
    assert(a@ =~= b@);
    true
}

/// Whether two strings hold the same characters.
pub fn same_text(a: &str, b: &str) -> (r: bool)
    ensures
        r == (a@ == b@),
{
    let x = chars_of(a);
    let y = chars_of(b);
    same_chars(&x, &y)
}

/// Whether `cs` is the text `word`.
pub fn is_word(cs: &[char], word: &str) -> (r: bool)
    ensures
        r == (cs@ == word@),
{
    let w = chars_of(word);
    same_chars(cs, &w)
}

/// Whether two runs of bytes are the same.
pub fn same_bytes(a: &[u8], b: &[u8]) -> (r: bool)
    ensures
        r == (a@ == b@),
{
    if a.len() != b.len() {
        return false;
    }
    let mut i: usize = 0;
    while i < a.len()
        invariant
            a@.len() == b@.len(),
            i <= a@.len(),
            forall|j: int| 0 <= j < i ==> a@[j] == b@[j],
        decreases a@.len() - i,
    {
        if a[i] != b[i] {
            return false;
        }
        i = i + 1;
    }
    assert(a@ =~= b@);
    true
}

// ── Searching ──────────────────────────────────────────────────────

/// Whether `p` stands in `s` at position `i`.
fn matches_at(s: &[char], p: &[char], i: usize) -> (r: bool)
    requires
        i <= s@.len(),
    ensures
        r == occurs_at(s@, p@, i as int),
{
    if p.len() > s.len() - i {
        return false;
    }
    same_chars(slice_subrange(s, i, i + p.len()), p)
}

/// The first position of `p` in `s`.
pub fn find_in(s: &[char], p: &[char]) -> (r: Option<usize>)
    ensures
        match r {
            Some(i) => find_text(s@, p@) == Some(i as int) && occurs_at(s@, p@, i as int),
            None => find_text(s@, p@) is None,
        },
{
    let mut i: usize = 0;
    while i <= s.len()
        invariant
            i <= s@.len() + 1,
            forall|j: int| 0 <= j < i ==> !#[trigger] occurs_at(s@, p@, j),
        decreases s@.len() + 1 - i,
    {
        if matches_at(s, p, i) {
            proof {
                lemma_find_is(s@, p@, i as int);
            }
            return Some(i);
        }
        if i == s.len() {
            return None;
        }
        i = i + 1;
    }
    None
}

/// Whether the string `s` contains the text `p`.
pub fn contains(s: &str, p: &str) -> (r: bool)
    ensures
        r == has_text(s@, p@),
{
    let x = chars_of(s);
    let y = chars_of(p);
    find_in(&x, &y).is_some()
}

/// Whether `s` begins with `p`.
pub fn begins_with(s: &[char], p: &str) -> (r: bool)
    ensures
        r == p@.is_prefix_of(s@),
{
    let y = chars_of(p);
    if y.len() > s.len() {
        return false;
    }
    same_chars(slice_subrange(s, 0, y.len()), &y)
}

/// The first position of `c` in `s`; the length of `s` where there is none.
pub fn position_of(s: &[char], c: char) -> (r: usize)
    ensures
        r == index_or_len(s@, c),
        r <= s@.len(),
{
    let mut i: usize = 0;
    while i < s.len()
        invariant
            i <= s@.len(),
            forall|j: int| 0 <= j < i ==> s@[j] != c,
        decreases s@.len() - i,
    {
        if s[i] == c {
            proof {
                lemma_index_is(s@, c, i as int);
            }
            return i;
        }
        i = i + 1;
    }
    proof {
        lemma_index_is(s@, c, i as int);
    }
    i
}

/// Whether `c` has the Unicode property `White_Space`.
pub fn space(c: char) -> (r: bool)
    ensures
        r == is_space(c),
{
    let n: u32 = c as u32;
    (9 <= n && n <= 13) || n == 0x20 || n == 0x85 || n == 0xA0 || n == 0x1680
        || (0x2000 <= n && n <= 0x200A) || n == 0x2028 || n == 0x2029 || n == 0x202F
        || n == 0x205F || n == 0x3000
}

/// `s` without white space at either end.
pub fn trimmed(s: &[char]) -> (r: &[char])
    ensures
        r@ == trim(s@),
{
    let mut from: usize = 0;
    proof {
        assert(s@.skip(0) == s@);
    }
    while from < s.len() && space(s[from])
        invariant
            from <= s@.len(),
            trim_start(s@.skip(from as int)) == trim_start(s@),
        decreases s@.len() - from,
    {
        proof {
            assert(s@.skip(from as int).skip(1) == s@.skip(from + 1));
        }
        from = from + 1;
    }
    let mut to: usize = s.len();
    let ghost front = s@.skip(from as int);
    proof {
        assert(trim_start(s@) == front);
        assert(s@.subrange(from as int, to as int) == front);
    }
    while from < to && space(s[to - 1])
        invariant
            from <= to <= s@.len(),
            trim_end(s@.subrange(from as int, to as int)) == trim_end(front),
        decreases to,
    {
        proof {
            assert(s@.subrange(from as int, to as int).drop_last() == s@.subrange(
                from as int,
                to - 1,
            ));
        }
        to = to - 1;
    }
    slice_subrange(s, from, to)
}

/// `s` without the run of `c` that it ends with.
pub fn without_end(s: &[char], c: char) -> (r: &[char])
    ensures
        r@ == strip_end(s@, c),
{
    let mut to: usize = s.len();
    proof {
        assert(s@.take(to as int) == s@);
    }
    while to > 0 && s[to - 1] == c
        invariant
            to <= s@.len(),
            strip_end(s@.take(to as int), c) == strip_end(s@, c),
        decreases to,
    {
        proof {
            assert(s@.take(to as int).drop_last() == s@.take(to - 1));
        }
        to = to - 1;
    }
    proof {
        assert(s@.subrange(0, to as int) == s@.take(to as int));
    }
    slice_subrange(s, 0, to)
}

/// `s` without the run of `c` that it begins with.
pub fn without_start(s: &[char], c: char) -> (r: &[char])
    ensures
        r@ == strip_start(s@, c),
{
    let mut from: usize = 0;
    proof {
        assert(s@.skip(0) == s@);
    }
    while from < s.len() && s[from] == c
        invariant
            from <= s@.len(),
            strip_start(s@.skip(from as int), c) == strip_start(s@, c),
        decreases s@.len() - from,
    {
        proof {
            assert(s@.skip(from as int).skip(1) == s@.skip(from + 1));
        }
        from = from + 1;
    }
    proof {
        assert(s@.subrange(from as int, s@.len() as int) == s@.skip(from as int));
    }
    slice_subrange(s, from, s.len())
}

/// `s` without its trailing slashes.
pub fn without_trailing_slashes(s: &str) -> (r: String)
    ensures
        r@ == strip_end(s@, '/'),
{
    let cs = chars_of(s);
    text_of(without_end(&cs, '/'))
}

/// The characters of each piece of a split, one vector per piece.
pub open spec fn pieces_view(v: Seq<Vec<char>>) -> Seq<Seq<char>> {
    v.map_values(|p: Vec<char>| p@)
}

/// The pieces of `s` between the occurrences of `c`.
pub fn split_at_char(s: &[char], c: char) -> (r: Vec<Vec<char>>)
    ensures
        pieces_view(r@) == split(s@, c),
{
    let mut r: Vec<Vec<char>> = Vec::new();
    let mut from: usize = 0;
    proof {
        assert(s@.skip(0) == s@);
    }
    loop
        invariant
            from <= s@.len(),
            split(s@, c) == pieces_view(r@) + split(s@.skip(from as int), c),
        decreases s@.len() - from,
    {
        let rest = slice_subrange(s, from, s.len());
        proof {
            assert(rest@ == s@.skip(from as int));
        }
        let n = position_of(rest, c);
        let piece = slice_subrange(rest, 0, n);
        let ghost before = r@;
        r.push(copied(piece));
        proof {
            assert(piece@ == rest@.take(n as int));
            assert(pieces_view(r@) == pieces_view(before).push(piece@));
        }
        if n == rest.len() {
            proof {
                assert(piece@ == rest@);
                assert(split(rest@, c) == seq![rest@]);
                assert(pieces_view(r@) == split(s@, c));
            }
            return r;
        }
        proof {
            assert(rest@.skip(n + 1) == s@.skip(from + n + 1));
            assert(split(rest@, c) == seq![rest@.take(n as int)] + split(rest@.skip(n + 1), c));
        }
        from = from + n + 1;
    }
}

/// A copy of the characters `s`.
pub fn copied(s: &[char]) -> (r: Vec<char>)
    ensures
        r@ == s@,
{
    let mut r: Vec<char> = Vec::new();
    let mut i: usize = 0;
    while i < s.len()
        invariant
            i <= s@.len(),
            r@ == s@.take(i as int),
        decreases s@.len() - i,
    {
        r.push(s[i]);
        i = i + 1;
        assert(s@.take(i as int) == s@.take(i - 1).push(s@[i - 1]));
    }
    r
}

// ── Decimal numbers ────────────────────────────────────────────────

/// The value of a run of digits, where it is at most `limit`.
fn digits_value(s: &[char], limit: u64) -> (r: Option<u64>)
    requires
        limit <= 0x7fff_ffff_ffff_ffff,
    ensures
        match r {
            Some(v) => s@.len() > 0 && all_digits(s@) && v == decimal_value(s@) && v <= limit,
            None => s@.len() == 0 || !all_digits(s@) || decimal_value(s@) > limit,
        },
{
    if s.len() == 0 {
        return None;
    }
    let mut i: usize = 0;
    let mut v: u64 = 0;
    let mut over: bool = false;
    while i < s.len()
        invariant
            limit <= 0x7fff_ffff_ffff_ffff,
            i <= s@.len(),
            all_digits(s@.take(i as int)),
            !over ==> v == decimal_value(s@.take(i as int)) && v <= limit,
            over ==> decimal_value(s@.take(i as int)) > limit,
        decreases s@.len() - i,
    {
        let c = s[i];
        if !('0' <= c && c <= '9') {
            assert(!is_digit(s@[i as int]));
            return None;
        }
        let ghost before = s@.take(i as int);
        proof {
            assert(s@.take(i + 1).drop_last() == before);
            assert(s@.take(i + 1).last() == c);
            assert forall|j: int| 0 <= j < i + 1 implies is_digit(#[trigger] s@.take(i + 1)[j]) by {
                if j < i {
                    assert(is_digit(before[j]));
                }
            }
        }
        let d: u64 = (c as u32 - '0' as u32) as u64;
        if !over {
            let wide: u128 = (v as u128) * 10 + (d as u128);
            if wide > limit as u128 {
                over = true;
            } else {
                v = wide as u64;
            }
        }
        i = i + 1;
    }
    assert(s@.take(i as int) == s@);
    if over {
        None
    } else {
        Some(v)
    }
}

/// The whole number that `s` writes, with an optional sign, where it lies between
/// `low` and `high`.
pub fn parse_signed(s: &[char], low: i64, high: i64) -> (r: Option<i64>)
    requires
        -0x7fff_ffff_ffff_ffff <= low <= 0 <= high,
    ensures
        match r {
            Some(n) => within(signed_value(s@), low as int, high as int) == Some(n as int),
            None => within(signed_value(s@), low as int, high as int) is None,
        },
{
    if s.len() > 0 && s[0] == '-' {
        let rest = slice_subrange(s, 1, s.len());
        assert(rest@ == s@.skip(1));
        match digits_value(rest, (-low) as u64) {
            Some(v) => Some(-(v as i64)),
            None => None,
        }
    } else {
        match parse_unsigned(s, high as u64) {
            Some(v) => Some(v as i64),
            None => None,
        }
    }
}

/// The whole number that `s` writes, with an optional `+`, where it is at most
/// `high`.
pub fn parse_unsigned(s: &[char], high: u64) -> (r: Option<u64>)
    requires
        high <= 0x7fff_ffff_ffff_ffff,
    ensures
        match r {
            Some(n) => within(unsigned_value(s@), 0, high as int) == Some(n as int),
            None => within(unsigned_value(s@), 0, high as int) is None,
        },
{
    if s.len() > 0 && s[0] == '+' {
        let rest = slice_subrange(s, 1, s.len());
        assert(rest@ == s@.skip(1));
        digits_value(rest, high)
    } else {
        digits_value(s, high)
    }
}

/// The digit character for `d`.
fn digit_char(d: u64) -> (c: char)
    requires
        d < 10,
    ensures
        c == ('0' as nat + d) as char,
{
    if d == 0 {
        '0'
    } else if d == 1 {
        '1'
    } else if d == 2 {
        '2'
    } else if d == 3 {
        '3'
    } else if d == 4 {
        '4'
    } else if d == 5 {
        '5'
    } else if d == 6 {
        '6'
    } else if d == 7 {
        '7'
    } else if d == 8 {
        '8'
    } else {
        '9'
    }
}

/// The decimal digits of `n`.
fn digit_chars(n: u64) -> (r: Vec<char>)
    ensures
        r@ == digits_of(n as nat),
    decreases n,
{
    if n < 10 {
        let mut r: Vec<char> = Vec::new();
        r.push(digit_char(n));
        r
    } else {
        let mut r = digit_chars(n / 10);
        r.push(digit_char(n % 10));
        r
    }
}

/// Appends the decimal form of `n`, filled with zeros after the sign to `width`
/// characters.
pub fn push_padded(out: &mut String, n: i64, width: usize)
    requires
        -0x7fff_ffff_ffff_ffff <= n,
        1 <= width,
    ensures
        final(out)@ == old(out)@ + decimal_padded(n as int, width as nat),
{
    let ghost start = out@;
    let mut room: usize = width;
    let size: u64 = if n < 0 {
        out.push('-');
        room = width - 1;
        (-n) as u64
    } else {
        n as u64
    };
    let ghost sign = if n < 0 {
        seq!['-']
    } else {
        Seq::<char>::empty()
    };
    assert(out@ == start + sign);
    let digits = digit_chars(size);
    let mut zeros: usize = digits.len();
    let ghost mut put: nat = 0;
    while zeros < room
        invariant
            digits@.len() <= zeros,
            digits@.len() < room ==> zeros <= room,
            room <= digits@.len() ==> zeros == digits@.len(),
            put == zeros - digits@.len(),
            out@ == start + sign + Seq::new(put, |i: int| '0'),
        decreases room - zeros,
    {
        out.push('0');
        proof {
            put = put + 1;
            assert(out@ == start + sign + Seq::new(put, |i: int| '0'));
        }
        zeros = zeros + 1;
    }
    let tail = text_of(&digits);
    out.append(&tail);
    proof {
        let d = digits@;
        assert(d == digits_of(size as nat));
        assert(zero_padded(d, room as nat) =~= Seq::new(put, |i: int| '0') + d);
        assert(out@ =~= start + (sign + zero_padded(d, room as nat)));
        if n >= 0 {
            assert(sign + zero_padded(d, room as nat) =~= zero_padded(d, width as nat));
        }
    }
}

/// Appends the decimal form of `n`.
pub fn push_decimal(out: &mut String, n: i64)
    requires
        -0x7fff_ffff_ffff_ffff <= n,
    ensures
        final(out)@ == old(out)@ + decimal(n as int),
{
    let ghost start = out@;
    let size: u64 = if n < 0 {
        out.push('-');
        (-n) as u64
    } else {
        n as u64
    };
    let digits = digit_chars(size);
    let tail = text_of(&digits);
    out.append(&tail);
    assert(out@ == start + decimal(n as int));
}

} // verus!
