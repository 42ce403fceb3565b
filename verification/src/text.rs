//! Text primitives: numbers in decimal and hexadecimal, comparison, trimming,
//! splitting and quoting. A string is modelled by its sequence of characters.
use vstd::prelude::*;
use vstd::string::*;

verus! {

/// `String::push` appends the character to the end of the string.
pub assume_specification[ String::push ](s: &mut String, c: char)
    ensures
        final(s)@ == old(s)@.push(c),
;

// ---------------------------------------------------------------------------
// Numbers
// ---------------------------------------------------------------------------

/// The character of a decimal digit.
pub open spec fn digit_char(d: nat) -> char {
    ('0' as u32 + d) as char
}

/// The decimal text of a natural number, without leading zeros.
pub open spec fn decimal(n: nat) -> Seq<char>
    decreases n,
{
    if n < 10 {
        seq![digit_char(n)]
    } else {
        decimal(n / 10).push(digit_char(n % 10))
    }
}

/// The decimal text of an integer, with a leading `-` when it is negative.
pub open spec fn signed_decimal(n: int) -> Seq<char> {
    if n < 0 {
        seq!['-'] + decimal((-n) as nat)
    } else {
        decimal(n as nat)
    }
}

fn digit(d: u64) -> (c: char)
    requires
        d < 10,
    ensures
        c == digit_char(d as nat),
{
    (48u8 + d as u8) as char
}

/// Writes a number in decimal.
pub fn u64_text(n: u64) -> (r: String)
    ensures
        r@ == decimal(n as nat),
    decreases n,
{
    if n < 10 {
        let mut r = String::new();
        r.push(digit(n));
        proof {
            assert(r@ =~= seq![digit_char(n as nat)]);
        }
        r
    } else {
        let mut r = u64_text(n / 10);
        r.push(digit(n % 10));
        r
    }
}

/// Writes a signed number in decimal.
pub fn i32_text(n: i32) -> (r: String)
    ensures
        r@ == signed_decimal(n as int),
{
    if n < 0 {
        let m: u64 = (-(n as i64)) as u64;
        let mut r = String::new();
        r.push('-');
        proof {
            assert(r@ =~= seq!['-']);
        }
        r.append(u64_text(m).as_str());
        r
    } else {
        u64_text(n as u64)
    }
}

// ---------------------------------------------------------------------------
// Characters of a string
// ---------------------------------------------------------------------------

/// The characters of a string, in order.
pub fn characters(s: &str) -> (r: Vec<char>)
    ensures
        r@ == s@,
{
    let mut r: Vec<char> = Vec::new();
    for c in it: s.chars()
        invariant
            it.seq() == s@,
            r@ == s@.take(it.index()),
    {
        r.push(c);
        proof {
            assert(r@ =~= s@.take(it.index() + 1));
        }
    }
    proof {
        assert(s@.take(s@.len() as int) =~= s@);
    }
    r
}

/// Whether two strings hold the same characters.
pub fn same(a: &str, b: &str) -> (r: bool)
    ensures
        r == (a@ == b@),
{
    let x = characters(a);
    let y = characters(b);
    if x.len() != y.len() {
        return false;
    }
    let mut i: usize = 0;
    while i < x.len()
        invariant
            i <= x.len(),
            x.len() == y.len(),
            forall|j: int| 0 <= j < i ==> x@[j] == y@[j],
            x@ == a@,
            y@ == b@,
        decreases x.len() - i,
    {
        if x[i] != y[i] {
            return false;
        }
        i = i + 1;
    }
    proof {
        assert(x@ =~= y@);
    }
    true
}

// ---------------------------------------------------------------------------
// Order
// ---------------------------------------------------------------------------

/// The order of strings: lexicographic, character by character, where
/// characters compare by their Unicode scalar values. It is also the order of
/// the UTF-8 bytes, by which strings are sorted.
pub open spec fn text_less(a: Seq<char>, b: Seq<char>) -> bool
    decreases a.len(),
{
    if b.len() == 0 {
        false
    } else if a.len() == 0 {
        true
    } else if a[0] != b[0] {
        a[0] < b[0]
    } else {
        text_less(a.drop_first(), b.drop_first())
    }
}

/// The order has no string below itself.
pub proof fn text_less_irreflexive(a: Seq<char>)
    ensures
        !text_less(a, a),
    decreases a.len(),
{
    if a.len() > 0 {
        text_less_irreflexive(a.drop_first());
    }
}

/// The order is transitive.
pub proof fn text_less_transitive(a: Seq<char>, b: Seq<char>, c: Seq<char>)
    requires
        text_less(a, b),
        text_less(b, c),
    ensures
        text_less(a, c),
    decreases a.len(),
{
    if a.len() > 0 && a[0] == b[0] && b[0] == c[0] {
        text_less_transitive(a.drop_first(), b.drop_first(), c.drop_first());
    }
}

/// Two different strings are ordered one way or the other.
pub proof fn text_less_total(a: Seq<char>, b: Seq<char>)
    ensures
        text_less(a, b) || a == b || text_less(b, a),
    decreases a.len(),
{
    if a.len() == 0 && b.len() == 0 {
        assert(a =~= b);
    } else if a.len() > 0 && b.len() > 0 && a[0] == b[0] {
        text_less_total(a.drop_first(), b.drop_first());
        if a.drop_first() == b.drop_first() {
            assert(a =~= seq![a[0]] + a.drop_first());
            assert(b =~= seq![b[0]] + b.drop_first());
        }
    }
}

/// Whether `a` comes before `b`.
pub fn less(a: &str, b: &str) -> (r: bool)
    ensures
        r == text_less(a@, b@),
{
    let x = characters(a);
    let y = characters(b);
    let mut i: usize = 0;
    proof {
        assert(x@.skip(0) =~= x@);
        assert(y@.skip(0) =~= y@);
    }
    while i < x.len() && i < y.len()
        invariant
            i <= x.len(),
            i <= y.len(),
            x@ == a@,
            y@ == b@,
            text_less(a@, b@) == text_less(x@.skip(i as int), y@.skip(i as int)),
        decreases x.len() - i,
    {
        if x[i] != y[i] {
            return x[i] < y[i];
        }
        proof {
            assert(x@.skip(i as int).drop_first() =~= x@.skip(i + 1));
            assert(y@.skip(i as int).drop_first() =~= y@.skip(i + 1));
        }
        i = i + 1;
    }
    i < y.len()
}

// ---------------------------------------------------------------------------
// Parts of a string
// ---------------------------------------------------------------------------

/// The text without `prefix`, when it starts with it.
pub open spec fn stripped(s: Seq<char>, prefix: Seq<char>) -> Option<Seq<char>> {
    if prefix.is_prefix_of(s) {
        Some(s.skip(prefix.len() as int))
    } else {
        None
    }
}

/// Whether `s` starts with `prefix`.
pub fn starts_with(s: &str, prefix: &str) -> (r: bool)
    ensures
        r == prefix@.is_prefix_of(s@),
{
    let n = s.unicode_len();
    let m = prefix.unicode_len();
    if m > n {
        return false;
    }
    let head = s.substring_char(0, m);
    let r = same(head, prefix);
    proof {
        assert(prefix@.is_prefix_of(s@) ==> prefix@ =~= s@.subrange(0, m as int));
    }
    r
}

/// What follows `prefix` in `s`, when `s` starts with it.
pub fn strip_prefix<'a>(s: &'a str, prefix: &str) -> (r: Option<&'a str>)
    ensures
        r is Some == (stripped(s@, prefix@) is Some),
        r matches Some(rest) ==> rest@ == stripped(s@, prefix@)->0,
{
    if starts_with(s, prefix) {
        let rest = s.substring_char(prefix.unicode_len(), s.unicode_len());
        proof {
            assert(rest@ =~= s@.skip(prefix@.len() as int));
        }
        Some(rest)
    } else {
        None
    }
}

/// The first `n` characters of a text, or all of them when there are fewer.
pub open spec fn first_chars(s: Seq<char>, n: nat) -> Seq<char> {
    if s.len() <= n {
        s
    } else {
        s.take(n as int)
    }
}

/// Takes the first `n` characters of `s`.
pub fn take_chars(s: &str, n: usize) -> (r: String)
    ensures
        r@ == first_chars(s@, n as nat),
{
    if s.unicode_len() <= n {
        s.to_owned()
    } else {
        let head = s.substring_char(0, n);
        proof {
            assert(head@ =~= s@.take(n as int));
        }
        head.to_owned()
    }
}

/// What follows the last occurrence of `sep`, or the whole text when there is
/// none.
pub open spec fn after_last(s: Seq<char>, sep: char) -> Seq<char>
    decreases s.len(),
{
    if s.len() == 0 || s.last() == sep {
        Seq::empty()
    } else {
        after_last(s.drop_last(), sep).push(s.last())
    }
}

/// The part of a text after its last separator holds no separator, and is all
/// that stands behind the separator that ends the rest.
pub proof fn after_last_splits(head: Seq<char>, tail: Seq<char>, sep: char)
    requires
        !tail.contains(sep),
    ensures
        after_last(head.push(sep) + tail, sep) == tail,
    decreases tail.len(),
{
    let s = head.push(sep) + tail;
    if tail.len() == 0 {
        assert(s =~= head.push(sep));
    } else {
        assert(tail.contains(tail.last()));
        assert(s.drop_last() =~= head.push(sep) + tail.drop_last());
        assert(!tail.drop_last().contains(sep)) by {
            if tail.drop_last().contains(sep) {
                let i = choose|i: int| 0 <= i < tail.drop_last().len() && tail.drop_last()[i] == sep;
                assert(tail[i] == sep);
            }
        }
        after_last_splits(head, tail.drop_last(), sep);
        assert(tail =~= tail.drop_last().push(tail.last()));
    }
}

/// Cuts off everything up to the last `sep`.
pub fn tail_after(s: &str, sep: char) -> (r: String)
    ensures
        r@ == after_last(s@, sep),
{
    let mut r = String::new();
    for c in it: s.chars()
        invariant
            it.seq() == s@,
            r@ == after_last(s@.take(it.index()), sep),
    {
        let ghost before = r@;
        proof {
            assert(s@.take(it.index() + 1).drop_last() =~= s@.take(it.index()));
        }
        if c == sep {
            r = String::new();
        } else {
            r.push(c);
        }
    }
    proof {
        assert(s@.take(s@.len() as int) =~= s@);
    }
    r
}

// ---------------------------------------------------------------------------
// White space and numbers in text
// ---------------------------------------------------------------------------

/// The characters with the Unicode property `White_Space`.
pub open spec fn white_space(c: char) -> bool {
    ||| '\u{9}' <= c <= '\u{d}'
    ||| c == '\u{20}'
    ||| c == '\u{85}'
    ||| c == '\u{a0}'
    ||| c == '\u{1680}'
    ||| '\u{2000}' <= c <= '\u{200a}'
    ||| c == '\u{2028}'
    ||| c == '\u{2029}'
    ||| c == '\u{202f}'
    ||| c == '\u{205f}'
    ||| c == '\u{3000}'
}

fn is_white_space(c: char) -> (r: bool)
    ensures
        r == white_space(c),
{
    ('\u{9}' <= c && c <= '\u{d}') || c == '\u{20}' || c == '\u{85}' || c == '\u{a0}'
        || c == '\u{1680}' || ('\u{2000}' <= c && c <= '\u{200a}') || c == '\u{2028}'
        || c == '\u{2029}' || c == '\u{202f}' || c == '\u{205f}' || c == '\u{3000}'
}

/// The text without leading white space.
pub open spec fn trimmed_start(s: Seq<char>) -> Seq<char>
    decreases s.len(),
{
    if s.len() > 0 && white_space(s[0]) {
        trimmed_start(s.drop_first())
    } else {
        s
    }
}

/// The text without trailing white space.
pub open spec fn trimmed_end(s: Seq<char>) -> Seq<char>
    decreases s.len(),
{
    if s.len() > 0 && white_space(s.last()) {
        trimmed_end(s.drop_last())
    } else {
        s
    }
}

/// The text without white space at either end.
pub open spec fn trimmed(s: Seq<char>) -> Seq<char> {
    trimmed_end(trimmed_start(s))
}

/// Removes white space at both ends.
pub fn trim(s: &str) -> (r: String)
    ensures
        r@ == trimmed(s@),
{
    let chars = characters(s);
    let mut from: usize = 0;
    proof {
        assert(chars@.skip(0) =~= chars@);
    }
    while from < chars.len() && is_white_space(chars[from])
        invariant
            from <= chars.len(),
            chars@ == s@,
            trimmed_start(chars@.skip(from as int)) == trimmed_start(s@),
        decreases chars.len() - from,
    {
        proof {
            assert(chars@.skip(from as int).drop_first() =~= chars@.skip(from + 1));
        }
        from = from + 1;
    }
    let mut to: usize = chars.len();
    proof {
        assert(chars@.subrange(from as int, to as int) =~= chars@.skip(from as int));
        assert(trimmed_start(s@) == chars@.skip(from as int));
    }
    while from < to && is_white_space(chars[to - 1])
        invariant
            from <= to <= chars.len(),
            trimmed_end(chars@.subrange(from as int, to as int)) == trimmed(s@),
        decreases to,
    {
        proof {
            assert(chars@.subrange(from as int, to as int).drop_last() =~= chars@.subrange(
                from as int,
                to - 1,
            ));
        }
        to = to - 1;
    }
    proof {
        assert(chars@.subrange(from as int, to as int) == trimmed(s@));
    }
    s.substring_char(from, to).to_owned()
}

/// Whether the character is an ASCII decimal digit.
pub open spec fn decimal_digit(c: char) -> bool {
    '0' <= c <= '9'
}

/// The number that a sequence of decimal digits stands for.
pub open spec fn digits_value(s: Seq<char>) -> nat
    decreases s.len(),
{
    if s.len() == 0 {
        0
    } else {
        digits_value(s.drop_last()) * 10 + (s.last() as u32 - '0' as u32) as nat
    }
}

/// Whether a text is made of decimal digits alone.
pub open spec fn all_digits(s: Seq<char>) -> bool {
    forall|i: int| 0 <= i < s.len() ==> decimal_digit(#[trigger] s[i])
}

/// The text without a leading `+`.
pub open spec fn without_plus(s: Seq<char>) -> Seq<char> {
    if s.len() > 0 && s[0] == '+' {
        s.drop_first()
    } else {
        s
    }
}

/// The number that a text stands for: one or more decimal digits, with an
/// optional `+` before them.
pub open spec fn unsigned_value(s: Seq<char>) -> Option<nat> {
    if without_plus(s).len() > 0 && all_digits(without_plus(s)) {
        Some(digits_value(without_plus(s)))
    } else {
        None
    }
}

/// Reads a number that fits 32 bits.
pub fn parse_u32(s: &str) -> (r: Option<u32>)
    ensures
        r is Some == (unsigned_value(s@) matches Some(v) && v <= u32::MAX),
        r matches Some(n) ==> unsigned_value(s@) == Some(n as nat),
{
    let chars = characters(s);
    let start: usize = if chars.len() > 0 && chars[0] == '+' {
        1
    } else {
        0
    };
    let ghost digits = chars@.skip(start as int);
    proof {
        if start == 0 {
            assert(digits =~= s@);
        } else {
            assert(digits =~= s@.drop_first());
        }
    }
    if start == chars.len() {
        return None;
    }
    let mut n: u32 = 0;
    let mut i: usize = start;
    // Set once the digits read so far no longer fit; the rest is still checked.
    let mut too_large: bool = false;
    proof {
        assert(digits.take(0) =~= Seq::<char>::empty());
    }
    while i < chars.len()
        invariant
            start <= i <= chars.len(),
            chars@ == s@,
            start == 0 || start == 1,
            digits == chars@.skip(start as int),
            forall|j: int| 0 <= j < i - start ==> decimal_digit(#[trigger] digits[j]),
            !too_large ==> n == digits_value(digits.take(i - start)),
            too_large ==> digits_value(digits.take(i - start)) > u32::MAX,
            digits == without_plus(s@),
            digits.len() > 0,
        decreases chars.len() - i,
    {
        let c = chars[i];
        proof {
            assert(digits[i - start] == c);
            assert(digits.take(i - start + 1).drop_last() =~= digits.take(i - start));
        }
        if c < '0' || c > '9' {
            return None;
        }
        let d: u32 = c as u32 - 48;
        if !too_large {
            if n > 429_496_729 || (n == 429_496_729 && d > 5) {
                too_large = true;
            } else {
                n = n * 10 + d;
            }
        }
        i = i + 1;
    }
    proof {
        assert(digits.take(digits.len() as int) =~= digits);
    }
    if too_large {
        None
    } else {
        Some(n)
    }
}

/// The digits of a number in decimal stand for the number.
pub proof fn decimal_round_trip(n: nat)
    ensures
        unsigned_value(decimal(n)) == Some(n),
        digits_value(decimal(n)) == n,
        decimal(n).len() > 0,
        all_digits(decimal(n)),
    decreases n,
{
    if n >= 10 {
        decimal_round_trip(n / 10);
        assert(decimal(n).drop_last() =~= decimal(n / 10));
        assert forall|i: int| 0 <= i < decimal(n).len() implies decimal_digit(
            #[trigger] decimal(n)[i],
        ) by {
            if i < decimal(n).len() - 1 {
                assert(decimal(n)[i] == decimal(n / 10)[i]);
            }
        }
    } else {
        assert(decimal(n).drop_last() =~= Seq::<char>::empty());
        assert(digits_value(Seq::<char>::empty()) == 0);
    }
    assert(decimal_digit(decimal(n)[0]));
}

// ---------------------------------------------------------------------------
// Joining
// ---------------------------------------------------------------------------

/// The texts one after the other with `sep` between them.
pub open spec fn joined(parts: Seq<Seq<char>>, sep: Seq<char>) -> Seq<char>
    decreases parts.len(),
{
    if parts.len() == 0 {
        Seq::empty()
    } else if parts.len() == 1 {
        parts[0]
    } else {
        joined(parts.drop_last(), sep) + sep + parts.last()
    }
}

/// The view of a string that may be absent.
pub open spec fn optional(s: Option<String>) -> Option<Seq<char>> {
    match s {
        Some(t) => Some(t@),
        None => None,
    }
}

/// The views of a list of pairs of strings.
pub open spec fn pair_views(pairs: Seq<(String, String)>) -> Seq<(Seq<char>, Seq<char>)> {
    pairs.map_values(|p: (String, String)| (p.0@, p.1@))
}

/// The views of a list of strings.
pub open spec fn views(parts: Seq<String>) -> Seq<Seq<char>> {
    parts.map_values(|s: String| s@)
}

/// Joins strings with a separator between them.
pub fn join(parts: &Vec<String>, sep: &str) -> (r: String)
    ensures
        r@ == joined(views(parts@), sep@),
{
    let ghost all = views(parts@);
    let mut r = String::new();
    let mut i: usize = 0;
    proof {
        assert(all.take(0) =~= Seq::empty());
    }
    while i < parts.len()
        invariant
            i <= parts.len(),
            all == views(parts@),
            r@ == joined(all.take(i as int), sep@),
        decreases parts.len() - i,
    {
        proof {
            assert(all.take(i + 1).drop_last() =~= all.take(i as int));
        }
        if i > 0 {
            r.append(sep);
        }
        r.append(parts[i].as_str());
        proof {
            if i == 0 {
                assert(r@ =~= parts@[0]@);
            }
        }
        i = i + 1;
    }
    proof {
        assert(all.take(all.len() as int) =~= all);
    }
    r
}

/// Adds a string to a list.
pub fn push_word(words: &mut Vec<String>, word: &str)
    ensures
        views(final(words)@) == views(old(words)@).push(word@),
{
    let ghost before = views(words@);
    words.push(word.to_owned());
    proof {
        assert(views(words@) =~= before.push(word@));
    }
}

// ---------------------------------------------------------------------------
// Laws
// ---------------------------------------------------------------------------

/// Strings are ordered by the first character in which they differ, and a string
/// comes before those that go on where it ends.
pub proof fn first_difference_decides(a: &str, b: &str, r: bool, i: int)
    requires
        call_ensures(less, (a, b), r),
        0 <= i <= a@.len(),
        i <= b@.len(),
        forall|j: int| 0 <= j < i ==> #[trigger] a@[j] == b@[j],
    ensures
        i < a@.len() && i < b@.len() && (a@[i] as int) < (b@[i] as int) ==> r,
        i < a@.len() && i < b@.len() && (a@[i] as int) > (b@[i] as int) ==> !r,
        i == a@.len() && i < b@.len() ==> r,
        i == b@.len() ==> !r,
{
    lemma_difference(a@, b@, i);
}

proof fn lemma_difference(a: Seq<char>, b: Seq<char>, i: int)
    requires
        0 <= i <= a.len(),
        i <= b.len(),
        forall|j: int| 0 <= j < i ==> #[trigger] a[j] == b[j],
    ensures
        text_less(a, b) == (if i == b.len() {
            false
        } else if i == a.len() {
            true
        } else if a[i] != b[i] {
            a[i] < b[i]
        } else {
            text_less(a.skip(i), b.skip(i))
        }),
    decreases i,
{
    if i == 0 {
        assert(a.skip(0) =~= a);
        assert(b.skip(0) =~= b);
    } else {
        let x = a.drop_first();
        let y = b.drop_first();
        assert(a[0] == b[0]);
        assert forall|j: int| 0 <= j < i - 1 implies #[trigger] x[j] == y[j] by {
            assert(a[j + 1] == b[j + 1]);
        }
        lemma_difference(x, y, i - 1);
        assert(x.skip(i - 1) =~= a.skip(i));
        assert(y.skip(i - 1) =~= b.skip(i));
    }
}

/// The blanks of Unicode, by their numbers.
pub open spec fn blank(c: char) -> bool {
    let n = c as int;
    ||| 9 <= n <= 13
    ||| n == 32
    ||| n == 133
    ||| n == 160
    ||| n == 5760
    ||| 8192 <= n <= 8202
    ||| n == 8232
    ||| n == 8233
    ||| n == 8239
    ||| n == 8287
    ||| n == 12288
}

/// Whether a text is made of blanks.
pub open spec fn blanks(s: Seq<char>) -> bool {
    forall|i: int| 0 <= i < s.len() ==> blank(#[trigger] s[i])
}

/// Only blanks are cut off, and none is left at either end.
pub proof fn only_blanks_are_cut_off(s: &str, r: String) -> (cut: (Seq<char>, Seq<char>))
    requires
        call_ensures(trim, (s,), r),
    ensures
        s@ == cut.0 + r@ + cut.1,
        blanks(cut.0) && blanks(cut.1),
        r@.len() > 0 ==> !blank(r@[0]) && !blank(r@.last()),
{
    let head = lemma_trimmed_start(s@);
    let middle = trimmed_start(s@);
    let tail = lemma_trimmed_end(middle);
    assert(s@ =~= head + r@ + tail);
    if r@.len() > 0 {
        assert(r@[0] == middle[0]);
    }
    (head, tail)
}

proof fn lemma_trimmed_start(s: Seq<char>) -> (head: Seq<char>)
    ensures
        s == head + trimmed_start(s),
        blanks(head),
        trimmed_start(s).len() > 0 ==> !blank(trimmed_start(s)[0]),
    decreases s.len(),
{
    if s.len() > 0 && white_space(s[0]) {
        let head = lemma_trimmed_start(s.drop_first());
        let whole = seq![s[0]] + head;
        let left = trimmed_start(s.drop_first());
        assert(trimmed_start(s) == left);
        assert(s =~= seq![s[0]] + s.drop_first());
        assert(whole + left =~= seq![s[0]] + (head + left));
        assert forall|i: int| 0 <= i < whole.len() implies blank(#[trigger] whole[i]) by {
            if i > 0 {
                assert(whole[i] == head[i - 1]);
            }
        }
        whole
    } else {
        assert(s =~= Seq::<char>::empty() + s);
        Seq::empty()
    }
}

proof fn lemma_trimmed_end(s: Seq<char>) -> (tail: Seq<char>)
    ensures
        s == trimmed_end(s) + tail,
        blanks(tail),
        trimmed_end(s).len() > 0 ==> !blank(trimmed_end(s).last()),
    decreases s.len(),
{
    if s.len() > 0 && white_space(s.last()) {
        let tail = lemma_trimmed_end(s.drop_last());
        let whole = tail.push(s.last());
        let left = trimmed_end(s.drop_last());
        assert(trimmed_end(s) == left);
        assert(s =~= s.drop_last().push(s.last()));
        assert(left + whole =~= (left + tail).push(s.last()));
        assert forall|i: int| 0 <= i < whole.len() implies blank(#[trigger] whole[i]) by {
            if i < tail.len() {
                assert(whole[i] == tail[i]);
            }
        }
        whole
    } else {
        assert(s =~= s + Seq::<char>::empty());
        Seq::empty()
    }
}

/// A number is written with the digits `0` to `9`, without leading zeros, and what
/// is written is read back.
pub proof fn numbers_are_read_back(n: u32, written: String, read: Option<u32>)
    requires
        call_ensures(u64_text, (n as u64,), written),
        exists|s: &str| s@ == written@ && #[trigger] call_ensures(parse_u32, (s,), read),
    ensures
        read == Some(n),
        written@.len() > 0,
        forall|i: int| 0 <= i < written@.len() ==> '0' <= #[trigger] written@[i] <= '9',
        written@.len() > 1 ==> written@[0] != '0',
{
    decimal_round_trip(n as nat);
    lemma_no_leading_zero(n as nat);
    assert forall|i: int| 0 <= i < written@.len() implies '0' <= #[trigger] written@[i] <= '9' by {
        assert(decimal_digit(decimal(n as nat)[i]));
    }
}

proof fn lemma_no_leading_zero(n: nat)
    ensures
        decimal(n).len() > 1 ==> decimal(n)[0] != '0',
        n > 0 ==> decimal(n)[0] != '0',
    decreases n,
{
    if n >= 10 {
        lemma_no_leading_zero(n / 10);
        decimal_round_trip(n / 10);
        assert(decimal(n)[0] == decimal(n / 10)[0]);
    }
}

/// Digits count by their places: the last is worth itself, and those before it ten
/// times what they are worth alone.
pub proof fn digits_count_by_their_places(s: Seq<char>, d: u32)
    requires
        s.len() > 0,
        all_digits(s),
        d < 10,
    ensures
        digits_value(s.push((48 + d) as char)) == 10 * digits_value(s) + d,
        unsigned_value(s) == Some(digits_value(s)),
        unsigned_value(seq!['+'] + s) == Some(digits_value(s)),
        digits_value(seq![(48 + d) as char]) == d,
{
    let c = (48 + d) as char;
    assert(s.push(c).drop_last() =~= s);
    assert(seq![c].drop_last() =~= Seq::<char>::empty());
    assert(digits_value(Seq::<char>::empty()) == 0);
    assert((seq!['+'] + s).drop_first() =~= s);
    assert(decimal_digit(s[0]));
}

/// A negative number is written as the number without its sign, behind a `-`.
pub proof fn negative_numbers_have_a_sign(n: i32, r: String)
    requires
        call_ensures(i32_text, (n,), r),
    ensures
        n >= 0 ==> r@ == decimal(n as nat),
        n < 0 ==> r@ == seq!['-'] + decimal((0 - n) as nat),
{
}

/// What follows the last separator holds none, and is all of a text without one.
pub proof fn tail_holds_no_separator(s: &str, sep: char, r: String)
    requires
        call_ensures(tail_after, (s, sep), r),
    ensures
        !r@.contains(sep),
        r@.is_suffix_of(s@),
        !s@.contains(sep) ==> r@ == s@,
        s@.contains(sep) ==> r@.len() < s@.len() && s@[s@.len() - r@.len() - 1] == sep,
{
    lemma_after_last(s@, sep);
}

proof fn lemma_after_last(s: Seq<char>, sep: char)
    ensures
        !after_last(s, sep).contains(sep),
        after_last(s, sep).is_suffix_of(s),
        !s.contains(sep) ==> after_last(s, sep) == s,
        s.contains(sep) ==> after_last(s, sep).len() < s.len() && s[s.len() - after_last(
            s,
            sep,
        ).len() - 1] == sep,
    decreases s.len(),
{
    let r = after_last(s, sep);
    if s.len() == 0 || s.last() == sep {
        assert(r.len() == 0);
        assert(s.subrange(s.len() as int, s.len() as int) =~= r);
        if s.len() > 0 {
            assert(s.contains(s[s.len() - 1]));
        } else {
            assert(s =~= r);
        }
    } else {
        let front = s.drop_last();
        lemma_after_last(front, sep);
        let before = after_last(front, sep);
        assert(r == before.push(s.last()));
        assert forall|i: int| 0 <= i < r.len() implies r[i] != sep by {
            if i < before.len() {
                assert(before.contains(before[i]));
            }
        }
        assert(front.subrange(front.len() - before.len(), front.len() as int) =~= before);
        assert(s.subrange(s.len() - r.len(), s.len() as int) =~= r);
        if s.contains(sep) {
            let k = choose|k: int| 0 <= k < s.len() && s[k] == sep;
            assert(front[k] == sep);
            assert(front.contains(sep));
        } else {
            assert forall|i: int| 0 <= i < front.len() implies front[i] != sep by {
                assert(s.contains(s[i]));
            }
            assert(before == front);
            assert(r =~= s);
        }
    }
}

/// Texts are joined in order, with the separator between each two of them.
pub proof fn parts_are_joined_in_order(a: Seq<Seq<char>>, b: Seq<Seq<char>>, sep: Seq<char>)
    requires
        a.len() > 0,
        b.len() > 0,
    ensures
        joined(a + b, sep) == joined(a, sep) + sep + joined(b, sep),
        a.len() == 1 ==> joined(a, sep) == a[0],
    decreases b.len(),
{
    if b.len() == 1 {
        assert((a + b).drop_last() =~= a);
    } else {
        let front = b.drop_last();
        parts_are_joined_in_order(a, front, sep);
        assert((a + b).drop_last() =~= a + front);
        assert(joined(a + b, sep) =~= joined(a, sep) + sep + joined(b, sep));
    }
}

/// A text around a word and the value behind it.
pub open spec fn parts_of(
    head: Seq<char>,
    word: Seq<char>,
    value: Seq<char>,
    tail: Seq<char>,
) -> Seq<char> {
    head + word + value + tail
}

/// Whether a text shows a value behind a word.
pub open spec fn shows_value(text: Seq<char>, word: Seq<char>, value: Seq<char>) -> bool {
    exists|head: Seq<char>, tail: Seq<char>|
        text == #[trigger] parts_of(head, word, value, tail)
}

/// A text that begins with a word and a value somewhere, and with what ends the
/// value, shows that value behind that word.
pub proof fn value_is_shown(
    text: Seq<char>,
    head: Seq<char>,
    word: Seq<char>,
    value: Seq<char>,
    end: Seq<char>,
)
    requires
        (head + word + value + end).is_prefix_of(text),
    ensures
        shows_value(text, word, value + end),
{
    let front = head + word + value + end;
    let tail = text.skip(front.len() as int);
    assert(text.subrange(0, front.len() as int) =~= front);
    assert(text =~= front + tail);
    assert(parts_of(head, word, value + end, tail) =~= front + tail);
}

/// What stands at the end of a text is a suffix of it.
pub proof fn end_is_a_suffix(head: Seq<char>, tail: Seq<char>)
    ensures
        tail.is_suffix_of(head + tail),
{
    let whole = head + tail;
    assert(whole.subrange(whole.len() - tail.len(), whole.len() as int) =~= tail);
}

} // verus!
