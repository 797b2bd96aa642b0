//! Character-level helpers over plain strings.

#[allow(unused_imports)]
use vstd::arithmetic::div_mod::lemma_div_denominator;
#[allow(unused_imports)]
use vstd::arithmetic::power::{lemma_pow0, lemma_pow1, lemma_pow_adds, lemma_pow_positive, pow};
use vstd::prelude::*;
use vstd::utf8::{decode_utf8, valid_utf8};

verus! {

/// `String::push` appends one character at the end of the string.
pub assume_specification[ String::push ](s: &mut String, c: char)
    ensures
        final(s)@ == old(s)@.push(c),
;

/// What `String::from_utf8_lossy` makes of a byte sequence.
pub uninterp spec fn utf8_lossy(bytes: Seq<u8>) -> Seq<char>;

/// What `str::to_lowercase` makes of a character sequence.
pub uninterp spec fn unicode_lowercase(chars: Seq<char>) -> Seq<char>;

/// Calls `String::from_utf8_lossy`: ill-formed byte sequences are replaced by
/// U+FFFD, and well-formed UTF-8 is decoded unchanged.
#[verifier::external_body]
pub(crate) fn decode_lossy(bytes: &[u8]) -> (decoded: String)
    ensures
        decoded@ == utf8_lossy(bytes@),
        valid_utf8(bytes@) ==> decoded@ == decode_utf8(bytes@),
{
    String::from_utf8_lossy(bytes).into_owned()
}

/// Calls `str::to_lowercase`, the Unicode lower-case mapping.
#[verifier::external_body]
pub(crate) fn lowercase(text: &str) -> (lowered: String)
    ensures
        lowered@ == unicode_lowercase(text@),
{
    text.to_lowercase()
}

/// Upper-case form of one ASCII letter; every other character is itself.
pub open spec fn ascii_upper(c: char) -> char {
    if 'a' <= c <= 'z' {
        (c as int - 32) as char
    } else {
        c
    }
}

/// The sequence with every ASCII letter in upper case.
pub open spec fn ascii_uppercase(s: Seq<char>) -> Seq<char> {
    s.map_values(|c: char| ascii_upper(c))
}

/// Equality up to the case of ASCII letters.
pub open spec fn same_ignoring_case(a: Seq<char>, b: Seq<char>) -> bool {
    ascii_uppercase(a) == ascii_uppercase(b)
}

/// Index of the first occurrence of `x` in `s`, or `s.len()` where there is none.
pub open spec fn find<T>(s: Seq<T>, x: T) -> int
    decreases s.len(),
{
    if s.len() == 0 || s[0] == x {
        0
    } else {
        1 + find(s.drop_first(), x)
    }
}

/// Number of occurrences of `x` in `s`.
pub open spec fn count<T>(s: Seq<T>, x: T) -> nat
    decreases s.len(),
{
    if s.len() == 0 {
        0
    } else {
        count(s.drop_last(), x) + if s.last() == x {
            1nat
        } else {
            0nat
        }
    }
}

/// The pieces of `s` between consecutive occurrences of `sep`.
pub open spec fn split<T>(s: Seq<T>, sep: T) -> Seq<Seq<T>>
    decreases s.len(),
{
    let at = find(s, sep);
    if 0 <= at < s.len() {
        seq![s.take(at)] + split(s.skip(at + 1), sep)
    } else {
        seq![s]
    }
}

/// `part` occurs somewhere in `s`.
pub open spec fn contains_part(s: Seq<char>, part: Seq<char>) -> bool {
    exists|i: int|
        0 <= i <= s.len() - part.len() && #[trigger] s.subrange(i, i + part.len()) == part
}

/// Decimal digit `d` as a character.
pub open spec fn digit_char(d: int) -> char {
    ('0' as int + d) as char
}

/// Decimal rendering of `n` without leading zeros.
pub open spec fn decimal(n: nat) -> Seq<char>
    decreases n,
{
    if n < 10 {
        seq![digit_char(n as int)]
    } else {
        decimal(n / 10).push(digit_char((n % 10) as int))
    }
}

/// Strict lexicographic order by code point.
pub open spec fn lex_less(a: Seq<char>, b: Seq<char>) -> bool
    decreases a.len(),
{
    b.len() > 0 && (a.len() == 0 || a[0] < b[0] || (a[0] == b[0] && lex_less(
        a.drop_first(),
        b.drop_first(),
    )))
}

/// The views of a vector of character vectors.
pub open spec fn views(parts: Seq<Vec<char>>) -> Seq<Seq<char>> {
    parts.map_values(|part: Vec<char>| part@)
}

/// `find` is the first index that holds `x`.
pub proof fn lemma_find<T>(s: Seq<T>, x: T)
    ensures
        0 <= find(s, x) <= s.len(),
        find(s, x) < s.len() ==> s[find(s, x)] == x,
        forall|i: int| 0 <= i < find(s, x) ==> s[i] != x,
    decreases s.len(),
{
    if s.len() > 0 && s[0] != x {
        lemma_find(s.drop_first(), x);
        assert forall|i: int| 0 <= i < find(s, x) implies s[i] != x by {
            if i > 0 {
                assert(s.drop_first()[i - 1] == s[i]);
            }
        }
    }
}

/// An index that holds `x`, with no occurrence before it, is what `find` gives.
pub proof fn lemma_find_is<T>(s: Seq<T>, x: T, at: int)
    requires
        0 <= at <= s.len(),
        at < s.len() ==> s[at] == x,
        forall|i: int| 0 <= i < at ==> s[i] != x,
    ensures
        find(s, x) == at,
{
    lemma_find(s, x);
}

/// The characters of a string, in order.
pub fn chars_of(text: &str) -> (chars: Vec<char>)
    ensures
        chars@ == text@,
{
    let mut chars: Vec<char> = Vec::new();
    for c in it: text.chars()
        invariant
            chars@ == text@.take(it.index() as int),
            it.seq() == text@,
    {
        chars.push(c);
        assert(chars@ =~= text@.take(it.index() as int + 1));
    }
    assert(text@.take(text@.len() as int) =~= text@);
    chars
}

/// The string made of the given characters.
pub fn string_of(chars: &[char]) -> (text: String)
    ensures
        text@ == chars@,
{
    let mut text = String::new();
    let mut i: usize = 0;
    while i < chars.len()
        invariant
            i <= chars.len(),
            text@ == chars@.take(i as int),
        decreases chars.len() - i,
    {
        text.push(chars[i]);
        i += 1;
        assert(text@ =~= chars@.take(i as int));
    }
    assert(chars@.take(chars@.len() as int) =~= chars@);
    text
}

/// Upper-case form of one character (ASCII letters only).
pub fn upper_char(c: char) -> (u: char)
    ensures
        u == ascii_upper(c),
{
    if 'a' <= c && c <= 'z' {
        (c as u8 - 32) as char
    } else {
        c
    }
}

/// The characters with every ASCII letter in upper case.
pub fn upper_chars(chars: &[char]) -> (upper: Vec<char>)
    ensures
        upper@ == ascii_uppercase(chars@),
{
    let mut upper: Vec<char> = Vec::new();
    let mut i: usize = 0;
    while i < chars.len()
        invariant
            i <= chars.len(),
            upper@ == ascii_uppercase(chars@.take(i as int)),
        decreases chars.len() - i,
    {
        upper.push(upper_char(chars[i]));
        i += 1;
        assert(upper@ =~= ascii_uppercase(chars@.take(i as int)));
    }
    assert(chars@.take(chars@.len() as int) =~= chars@);
    upper
}

/// Element-wise equality of two character slices.
pub fn same_chars(a: &[char], b: &[char]) -> (same: bool)
    ensures
        same == (a@ == b@),
{
    if a.len() != b.len() {
        return false;
    }
    let mut i: usize = 0;
    while i < a.len()
        invariant
            i <= a.len(),
            a.len() == b.len(),
            forall|k: int| 0 <= k < i ==> a@[k] == b@[k],
        decreases a.len() - i,
    {
        if a[i] != b[i] {
            return false;
        }
        i += 1;
    }
    assert(a@ =~= b@);
    true
}

/// Equality of two character slices up to the case of ASCII letters.
pub fn equals_ignoring_case(a: &[char], b: &[char]) -> (same: bool)
    ensures
        same == same_ignoring_case(a@, b@),
{
    let left = upper_chars(a);
    let right = upper_chars(b);
    same_chars(left.as_slice(), right.as_slice())
}

/// Whether the upper-case form of the characters is the given literal.
pub fn upper_is(chars: &[char], literal: &str) -> (same: bool)
    ensures
        same == (ascii_uppercase(chars@) == literal@),
{
    let upper = upper_chars(chars);
    let wanted = chars_of(literal);
    same_chars(upper.as_slice(), wanted.as_slice())
}

/// Position of the first `wanted` at or after `from`, or the length.
pub fn find_char(chars: &[char], wanted: char, from: usize) -> (at: usize)
    requires
        from <= chars@.len(),
    ensures
        from <= at <= chars@.len(),
        at - from == find(chars@.skip(from as int), wanted),
{
    let mut at: usize = from;
    while at < chars.len()
        invariant
            from <= at <= chars.len(),
            forall|k: int| from <= k < at ==> chars@[k] != wanted,
        decreases chars.len() - at,
    {
        if chars[at] == wanted {
            proof {
                lemma_find_is(chars@.skip(from as int), wanted, at - from);
            }
            return at;
        }
        at += 1;
    }
    proof {
        lemma_find_is(chars@.skip(from as int), wanted, at - from);
    }
    at
}

/// Number of occurrences of one character.
pub fn count_char(chars: &[char], wanted: char) -> (n: usize)
    ensures
        n == count(chars@, wanted),
{
    let mut n: usize = 0;
    let mut i: usize = 0;
    while i < chars.len()
        invariant
            n <= i <= chars.len(),
            n == count(chars@.take(i as int), wanted),
        decreases chars.len() - i,
    {
        assert(chars@.take(i + 1).drop_last() =~= chars@.take(i as int));
        if chars[i] == wanted {
            n += 1;
        }
        i += 1;
    }
    assert(chars@.take(chars@.len() as int) =~= chars@);
    n
}

/// The pieces between consecutive separators.
pub fn split_chars(chars: &[char], sep: char) -> (parts: Vec<Vec<char>>)
    ensures
        views(parts@) == split(chars@, sep),
{
    let mut parts: Vec<Vec<char>> = Vec::new();
    let mut from: usize = 0;
    assert(chars@.skip(0) =~= chars@);
    assert(views(parts@) =~= Seq::<Seq<char>>::empty());
    loop
        invariant
            from <= chars.len(),
            views(parts@) + split(chars@.skip(from as int), sep) == split(chars@, sep),
        decreases chars.len() - from,
    {
        let at: usize = find_char(chars, sep, from);
        let piece = vstd::slice::slice_to_vec(vstd::slice::slice_subrange(chars, from, at));
        let ghost rest = chars@.skip(from as int);
        let ghost before = views(parts@);
        parts.push(piece);
        assert(views(parts@) =~= before.push(piece@));
        if at == chars.len() {
            assert(piece@ =~= rest);
            assert(split(rest, sep) =~= seq![rest]);
            assert(before + seq![rest] =~= before.push(rest));
            return parts;
        }
        proof {
            assert(piece@ =~= rest.take(at - from));
            assert(rest.skip(at - from + 1) =~= chars@.skip(at + 1));
            assert(split(rest, sep) =~= seq![piece@] + split(chars@.skip(at + 1), sep));
            assert(before + (seq![piece@] + split(chars@.skip(at + 1), sep)) =~= before.push(
                piece@,
            ) + split(chars@.skip(at + 1), sep));
        }
        from = at + 1;
    }
}

/// Whether `part` starts at position `at`.
fn part_at(chars: &[char], part: &[char], at: usize) -> (found: bool)
    requires
        at + part@.len() <= chars@.len(),
    ensures
        found == (chars@.subrange(at as int, at + part@.len()) == part@),
{
    let rest: usize = chars.len() - at;
    assert(part.len() <= rest);
    same_chars(vstd::slice::slice_subrange(chars, at, at + part.len()), part)
}

/// Whether the characters begin with the literal.
pub fn starts_with(chars: &[char], literal: &str) -> (found: bool)
    ensures
        found == literal@.is_prefix_of(chars@),
{
    let part = chars_of(literal);
    if part.len() > chars.len() {
        return false;
    }
    assert(chars@.subrange(0, part@.len() as int) == part@ <==> part@.is_prefix_of(chars@));
    part_at(chars, part.as_slice(), 0)
}

/// Whether the literal occurs among the characters.
pub fn contains(chars: &[char], literal: &str) -> (found: bool)
    ensures
        found == contains_part(chars@, literal@),
{
    let part = chars_of(literal);
    if part.len() > chars.len() {
        return false;
    }
    let last: usize = chars.len() - part.len();
    let mut at: usize = 0;
    while at < last
        invariant
            part@ == literal@,
            at <= last == chars.len() - part.len(),
            forall|k: int|
                0 <= k < at ==> #[trigger] chars@.subrange(k, k + part@.len()) != part@,
        decreases last - at,
    {
        if part_at(chars, part.as_slice(), at) {
            return true;
        }
        at += 1;
    }
    part_at(chars, part.as_slice(), last)
}

/// Appends the decimal rendering of a number.
pub fn append_decimal(out: &mut String, n: u128)
    ensures
        final(out)@ == old(out)@ + decimal(n as nat),
        place_value(final(out)@.skip(old(out)@.len() as int)) == n,
    decreases n,
{
    if n >= 10 {
        append_decimal(out, n / 10);
    }
    let digit = (48u8 + (n % 10) as u8) as char;
    out.push(digit);
    assert(out@ =~= old(out)@ + decimal(n as nat));
    proof {
        law_decimal_reads_back(n as nat);
        assert(out@.skip(old(out)@.len() as int) =~= decimal(n as nat));
    }
}

/// Strict lexicographic comparison by code point.
pub fn chars_less(a: &[char], b: &[char]) -> (less: bool)
    ensures
        less == lex_less(a@, b@),
        less <==> (a@.len() < b@.len() && a@ == b@.take(a@.len() as int)) || exists|i: int|
            0 <= i < a@.len() && i < b@.len() && #[trigger] a@.take(i) == b@.take(i) && a@[i]
                < b@[i],
{
    proof {
        law_text_order_is_lexicographic(a@, b@);
    }
    let ghost first = lex_less(a@, b@);
    let mut i: usize = 0;
    assert(a@.skip(0) =~= a@);
    assert(b@.skip(0) =~= b@);
    while i < a.len() && i < b.len()
        invariant
            i <= a.len(),
            i <= b.len(),
            first <==> (a@.len() < b@.len() && a@ == b@.take(a@.len() as int)) || exists|k: int|
                0 <= k < a@.len() && k < b@.len() && #[trigger] a@.take(k) == b@.take(k) && a@[k]
                    < b@[k],
            first == lex_less(a@, b@),
            first == lex_less(a@.skip(i as int), b@.skip(i as int)),
        decreases a.len() - i,
    {
        if a[i] < b[i] {
            return true;
        }
        if a[i] != b[i] {
            return false;
        }
        assert(a@.skip(i as int).drop_first() =~= a@.skip(i + 1));
        assert(b@.skip(i as int).drop_first() =~= b@.skip(i + 1));
        i += 1;
    }
    i < b.len()
}

/// `lex_less` is irreflexive.
pub proof fn lemma_lex_irreflexive(a: Seq<char>)
    ensures
        !lex_less(a, a),
    decreases a.len(),
{
    if a.len() > 0 {
        lemma_lex_irreflexive(a.drop_first());
    }
}

/// `lex_less` is transitive.
pub proof fn lemma_lex_transitive(a: Seq<char>, b: Seq<char>, c: Seq<char>)
    requires
        lex_less(a, b),
        lex_less(b, c),
    ensures
        lex_less(a, c),
    decreases a.len(),
{
    if a.len() > 0 && a[0] == b[0] && b[0] == c[0] {
        lemma_lex_transitive(a.drop_first(), b.drop_first(), c.drop_first());
    }
}

/// Of two different sequences one precedes the other.
pub proof fn lemma_lex_total(a: Seq<char>, b: Seq<char>)
    ensures
        lex_less(a, b) || a == b || lex_less(b, a),
    decreases a.len(),
{
    if a.len() == 0 || b.len() == 0 {
        if a.len() == 0 && b.len() == 0 {
            assert(a =~= b);
        }
    } else if a[0] == b[0] {
        lemma_lex_total(a.drop_first(), b.drop_first());
        if a.drop_first() == b.drop_first() {
            assert(a =~= seq![a[0]] + a.drop_first());
            assert(b =~= seq![b[0]] + b.drop_first());
        }
    }
}

/// The sum of each digit times the power of ten of its place.
pub open spec fn place_value(digits: Seq<char>) -> int
    decreases digits.len(),
{
    if digits.len() == 0 {
        0
    } else {
        (digits[0] as int - 48) * pow(10, (digits.len() - 1) as nat) + place_value(
            digits.drop_first(),
        )
    }
}

/// A decimal rendering is made of digits, reads back as its number, and has no
/// leading zero unless it is the single digit of zero.
pub proof fn law_decimal_reads_back(n: nat)
    ensures
        decimal(n).len() > 0,
        forall|i: int|
            0 <= i < decimal(n).len() ==> 48 <= #[trigger] decimal(n)[i] as int <= 57,
        place_value(decimal(n)) == n,
        decimal(n).len() > 1 ==> decimal(n)[0] as int != 48,
    decreases n,
{
    if n < 10 {
        assert(digit_char(n as int) as int == 48 + n);
        lemma_pow0(10);
        reveal_with_fuel(place_value, 2);
        assert(decimal(n).drop_first() =~= Seq::<char>::empty());
    } else {
        let front = decimal(n / 10);
        let last = digit_char((n % 10) as int);
        law_decimal_reads_back(n / 10);
        assert(last as int == 48 + n % 10);
        assert(decimal(n) == front.push(last));
        lemma_place_value_push(front, last);
        assert(front[0] as int != 48) by {
            if front.len() == 1 {
                lemma_pow0(10);
                reveal_with_fuel(place_value, 2);
                assert(front.drop_first() =~= Seq::<char>::empty());
            }
        }
        assert forall|i: int| 0 <= i < decimal(n).len() implies 48 <= #[trigger] decimal(
            n,
        )[i] as int <= 57 by {
            if i < front.len() {
                assert(decimal(n)[i] == front[i]);
            }
        }
    }
}

/// Each digit of a decimal rendering is the one that its place asks for, and
/// there are as many digits as the number has.
pub proof fn law_decimal_digits(n: nat, place: nat)
    requires
        place < decimal(n).len(),
    ensures
        decimal(n)[decimal(n).len() - 1 - place] as int == 48 + (n as int / pow(10, place)) % 10,
        n < pow(10, decimal(n).len()),
        decimal(n).len() > 1 ==> pow(10, (decimal(n).len() - 1) as nat) <= n,
    decreases n,
{
    lemma_pow0(10);
    lemma_pow1(10);
    if n < 10 {
        assert(digit_char(n as int) as int == 48 + n);
    } else {
        let front = decimal(n / 10);
        let len = front.len();
        law_decimal_reads_back(n / 10);
        law_decimal_digits(n / 10, 0);
        lemma_pow_adds(10, 1, len);
        lemma_pow_adds(10, 1, (len - 1) as nat);
        assert(digit_char((n % 10) as int) as int == 48 + n % 10);
        if place > 0 {
            let inner = (place - 1) as nat;
            law_decimal_digits(n / 10, inner);
            lemma_pow_adds(10, 1, inner);
            lemma_pow_positive(10, inner);
            lemma_div_denominator(n as int, 10, pow(10, inner));
            assert(decimal(n)[decimal(n).len() - 1 - place] == front[len - 1 - inner]);
        }
    }
}

/// One more digit makes the value ten times as large, and adds itself.
proof fn lemma_place_value_push(digits: Seq<char>, digit: char)
    ensures
        place_value(digits.push(digit)) == 10 * place_value(digits) + (digit as int - 48),
    decreases digits.len(),
{
    let longer = digits.push(digit);
    if digits.len() == 0 {
        lemma_pow0(10);
        reveal_with_fuel(place_value, 2);
        assert(longer.drop_first() =~= Seq::<char>::empty());
    } else {
        let rest = digits.drop_first();
        lemma_place_value_push(rest, digit);
        assert(longer.drop_first() =~= rest.push(digit));
        let places = (digits.len() - 1) as nat;
        let d = digits[0] as int - 48;
        lemma_pow1(10);
        lemma_pow_adds(10, 1, places);
        assert(pow(10, digits.len()) == 10 * pow(10, places));
        assert(d * pow(10, digits.len()) == 10 * (d * pow(10, places))) by (nonlinear_arith)
            requires
                pow(10, digits.len()) == 10 * pow(10, places),
        ;
    }
}

/// Texts are ordered as in a dictionary: by the first character in which they
/// differ, and a beginning before what it begins.
pub proof fn law_text_order_is_lexicographic(a: Seq<char>, b: Seq<char>)
    ensures
        lex_less(a, b) <==> (a.len() < b.len() && a == b.take(a.len() as int)) || exists|i: int|
            0 <= i < a.len() && i < b.len() && #[trigger] a.take(i) == b.take(i) && a[i] < b[i],
    decreases a.len(),
{
    let prefix = a.len() < b.len() && a == b.take(a.len() as int);
    let differs = exists|i: int|
        0 <= i < a.len() && i < b.len() && #[trigger] a.take(i) == b.take(i) && a[i] < b[i];
    if a.len() == 0 {
        assert(a =~= b.take(0));
    } else if b.len() > 0 {
        let x = a.drop_first();
        let y = b.drop_first();
        law_text_order_is_lexicographic(x, y);
        if a[0] == b[0] {
            if lex_less(x, y) {
                if x.len() < y.len() && x == y.take(x.len() as int) {
                    assert(a =~= seq![a[0]] + x);
                    assert(b.take(a.len() as int) =~= seq![b[0]] + y.take(x.len() as int));
                } else {
                    let i = choose|i: int|
                        0 <= i < x.len() && i < y.len() && #[trigger] x.take(i) == y.take(i)
                            && x[i] < y[i];
                    assert(a.take(i + 1) =~= seq![a[0]] + x.take(i));
                    assert(b.take(i + 1) =~= seq![b[0]] + y.take(i));
                }
            }
            if prefix || differs {
                if prefix {
                    assert(x =~= y.take(x.len() as int)) by {
                        assert forall|k: int| 0 <= k < x.len() implies #[trigger] x[k] == y.take(
                            x.len() as int,
                        )[k] by {
                            assert(a[k + 1] == b.take(a.len() as int)[k + 1]);
                        }
                    }
                } else {
                    let i = choose|i: int|
                        0 <= i < a.len() && i < b.len() && #[trigger] a.take(i) == b.take(i)
                            && a[i] < b[i];
                    assert(x.take(i - 1) =~= y.take(i - 1)) by {
                        assert forall|k: int| 0 <= k < i - 1 implies #[trigger] x.take(i - 1)[k]
                            == y.take(i - 1)[k] by {
                            assert(a.take(i)[k + 1] == b.take(i)[k + 1]);
                        }
                    }
                }
            }
        } else {
            if a[0] < b[0] {
                assert(a.take(0) =~= b.take(0));
            }
            if prefix || differs {
                if prefix {
                    assert(a[0] == b.take(a.len() as int)[0]);
                } else {
                    let i = choose|i: int|
                        0 <= i < a.len() && i < b.len() && #[trigger] a.take(i) == b.take(i)
                            && a[i] < b[i];
                    if i > 0 {
                        assert(a.take(i)[0] == b.take(i)[0]);
                    }
                }
            }
        }
    }
}

/// The pieces with the separator between them.
pub open spec fn joined<T>(parts: Seq<Seq<T>>, sep: T) -> Seq<T>
    decreases parts.len(),
{
    if parts.len() == 0 {
        Seq::empty()
    } else if parts.len() == 1 {
        parts[0]
    } else {
        parts[0] + seq![sep] + joined(parts.drop_first(), sep)
    }
}

/// Splitting loses nothing and leaves no separator: joining the pieces gives
/// the text back, and no piece holds the separator.
pub proof fn law_split_is_undone_by_joining<T>(s: Seq<T>, sep: T)
    ensures
        split(s, sep).len() > 0,
        joined(split(s, sep), sep) == s,
        forall|i: int| 0 <= i < split(s, sep).len() ==> !(#[trigger] split(s, sep)[i]).contains(sep),
    decreases s.len(),
{
    let at = find(s, sep);
    lemma_find(s, sep);
    let parts = split(s, sep);
    if at < s.len() {
        let rest = s.skip(at + 1);
        law_split_is_undone_by_joining(rest, sep);
        assert(parts.drop_first() =~= split(rest, sep));
        assert(parts[0] =~= s.take(at));
        assert(s =~= s.take(at) + seq![sep] + rest);
        assert forall|i: int| 0 <= i < parts.len() implies !(#[trigger] parts[i]).contains(
            sep,
        ) by {
            if i > 0 {
                assert(parts[i] == split(rest, sep)[i - 1]);
            }
        }
    }
}

/// Counting adds up over the pieces of a text, and a single character counts
/// exactly where it is the one that is looked for.
pub proof fn law_count_adds_up<T>(a: Seq<T>, b: Seq<T>, c: T, x: T)
    ensures
        count(a + b, x) == count(a, x) + count(b, x),
        count(seq![c], x) == if c == x {
            1nat
        } else {
            0nat
        },
    decreases b.len(),
{
    reveal_with_fuel(count, 2);
    assert(seq![c].drop_last() =~= Seq::<T>::empty());
    if b.len() == 0 {
        assert(a + b =~= a);
    } else {
        law_count_adds_up(a, b.drop_last(), c, x);
        assert((a + b).drop_last() =~= a + b.drop_last());
    }
}

/// Only the ASCII letters `a` to `z` change in upper case, each to the letter
/// 32 places before it, so that two letters agree exactly where they are the
/// same letter.
pub proof fn law_upper_case_changes_small_letters_only(c: char, d: char)
    ensures
        97 <= c as int <= 122 ==> ascii_upper(c) as int == c as int - 32,
        !(97 <= c as int <= 122) ==> ascii_upper(c) == c,
        same_ignoring_case(seq![c], seq![d]) <==> c == d || (97 <= c as int <= 122 && d as int
            == c as int - 32) || (97 <= d as int <= 122 && c as int == d as int - 32),
{
    let x = ascii_uppercase(seq![c]);
    let y = ascii_uppercase(seq![d]);
    assert(x[0] == ascii_upper(c) && y[0] == ascii_upper(d));
    if ascii_upper(c) == ascii_upper(d) {
        assert(x =~= y);
    }
}

/// Texts agree up to case exactly where they are equally long and agree
/// character by character.
pub proof fn law_case_is_ignored_by_character(a: Seq<char>, b: Seq<char>)
    ensures
        same_ignoring_case(a, b) <==> a.len() == b.len() && forall|i: int|
            0 <= i < a.len() ==> ascii_upper(#[trigger] a[i]) == ascii_upper(b[i]),
{
    let x = ascii_uppercase(a);
    let y = ascii_uppercase(b);
    if x == y {
        assert(a.len() == x.len() && b.len() == y.len());
        assert forall|i: int| 0 <= i < a.len() implies ascii_upper(#[trigger] a[i])
            == ascii_upper(b[i]) by {
            assert(x[i] == ascii_upper(a[i]) && y[i] == ascii_upper(b[i]));
        }
    } else if a.len() == b.len() && (forall|i: int|
        0 <= i < a.len() ==> ascii_upper(#[trigger] a[i]) == ascii_upper(b[i])) {
        assert(x =~= y);
    }
}

/// Without a separator there is a single piece.
pub proof fn lemma_split_absent(s: Seq<char>, sep: char)
    requires
        !s.contains(sep),
    ensures
        split(s, sep) == seq![s],
{
    lemma_find(s, sep);
}

/// A piece, a separator and a rest split into the piece and the pieces of the
/// rest.
pub proof fn lemma_split_at(a: Seq<char>, sep: char, b: Seq<char>)
    requires
        !a.contains(sep),
    ensures
        split(a + seq![sep] + b, sep) == seq![a] + split(b, sep),
{
    let s = a + seq![sep] + b;
    assert forall|i: int| 0 <= i < a.len() implies s[i] != sep by {
        assert(a.contains(a[i]));
    }
    lemma_find_is(s, sep, a.len() as int);
    assert(s.take(a.len() as int) =~= a);
    assert(s.skip(a.len() as int + 1) =~= b);
}

/// A part occurs where something stands before it and something behind it, and
/// nowhere else.
pub proof fn law_parts_stand_between(
    before: Seq<char>,
    part: Seq<char>,
    after: Seq<char>,
    s: Seq<char>,
)
    ensures
        contains_part(before + part + after, part),
        contains_part(s, part) ==> exists|i: int|
            0 <= i <= s.len() - part.len() && #[trigger] s.take(i) + part + s.skip(
                i + part.len(),
            ) == s,
{
    let all = before + part + after;
    let at = before.len() as int;
    assert(all.subrange(at, at + part.len()) =~= part);
    if contains_part(s, part) {
        let i = choose|i: int|
            0 <= i <= s.len() - part.len() && #[trigger] s.subrange(i, i + part.len()) == part;
        assert(s.take(i) + part + s.skip(i + part.len()) =~= s) by {
            assert forall|k: int| 0 <= k < part.len() implies part[k] == s[i + k] by {
                assert(s.subrange(i, i + part.len())[k] == s[i + k]);
            }
        }
    }
}

} // verus!
