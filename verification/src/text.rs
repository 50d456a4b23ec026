//! Strings as sequences of characters: building, cutting, comparing and reading numbers.

use vstd::prelude::*;
use vstd::string::*;

verus! {

/// `String::push` appends the given character to the end of the string.
pub assume_specification[ String::push ](s: &mut String, c: char)
    ensures
        final(s)@ == old(s)@.push(c),
;

/// The characters of `s`, one by one.
pub fn chars_of(s: &str) -> (v: Vec<char>)
    ensures
        v@ == s@,
{
    let mut v: Vec<char> = Vec::new();
    for c in iter: s.chars()
        invariant
            iter.seq() == s@,
            v@ == s@.take(iter.index() as int),
    {
        v.push(c);
    }
    v
}

/// The string made of the characters `chars[from..to]`.
pub fn string_of_range(chars: &[char], from: usize, to: usize) -> (s: String)
    requires
        from <= to <= chars@.len(),
    ensures
        s@ == chars@.subrange(from as int, to as int),
{
    let mut s = String::new();
    let mut i: usize = from;
    while i < to
        invariant
            from <= i <= to <= chars@.len(),
            s@ == chars@.subrange(from as int, i as int),
        decreases to - i,
    {
        s.push(chars[i]);
        i = i + 1;
        assert(chars@.subrange(from as int, i as int) =~= chars@.subrange(
            from as int,
            i - 1,
        ).push(chars@[i - 1]));
    }
    s
}

/// The string made of the given characters.
pub fn string_of(chars: &[char]) -> (s: String)
    ensures
        s@ == chars@,
{
    assert(chars@.subrange(0, chars@.len() as int) =~= chars@);
    string_of_range(chars, 0, chars.len())
}

/// Whether two strings hold the same characters.
pub fn same_text(a: &str, b: &str) -> (same: bool)
    ensures
        same == (a@ == b@),
{
    a.to_string() == b.to_string()
}

/// `a` followed by `b`.
pub fn concat2(a: &str, b: &str) -> (s: String)
    ensures
        s@ == a@ + b@,
{
    let mut s = a.to_string();
    s.append(b);
    s
}

/// `a` followed by `b` followed by `c`.
pub fn concat3(a: &str, b: &str, c: &str) -> (s: String)
    ensures
        s@ == a@ + b@ + c@,
{
    let mut s = a.to_string();
    s.append(b);
    s.append(c);
    s
}

// ---------------------------------------------------------------------------
// Numbers
// ---------------------------------------------------------------------------

/// A decimal digit.
pub open spec fn is_digit(c: char) -> bool {
    '0' <= c <= '9'
}

/// The character of a digit below ten.
pub open spec fn digit(d: nat) -> char {
    (('0' as int) + d) as char
}

/// The decimal digits of `n`, most significant first, without leading zeros.
pub open spec fn decimal(n: nat) -> Seq<char>
    decreases n,
{
    if n < 10 {
        seq![digit(n)]
    } else {
        decimal(n / 10).push(digit(n % 10))
    }
}

/// The decimal form of an integer: a minus sign before the digits of a negative one.
pub open spec fn signed_decimal(n: int) -> Seq<char> {
    if n < 0 {
        seq!['-'] + decimal((-n) as nat)
    } else {
        decimal(n as nat)
    }
}

/// The character of a digit below ten.
pub fn digit_char(d: u8) -> (c: char)
    requires
        d < 10,
    ensures
        c == digit(d as nat),
{
    (48u8 + d) as char
}

/// Appends the decimal digits of `n` to `s`.
pub fn push_decimal(s: &mut String, n: u64)
    ensures
        final(s)@ == old(s)@ + decimal(n as nat),
    decreases n,
{
    if n >= 10 {
        push_decimal(s, n / 10);
    }
    s.push(digit_char((n % 10) as u8));
    assert(s@ =~= old(s)@ + decimal(n as nat));
}

/// Appends the decimal form of `n` to `s`.
pub fn push_signed(s: &mut String, n: i64)
    ensures
        final(s)@ == old(s)@ + signed_decimal(n as int),
{
    if n < 0 {
        s.push('-');
        if n == i64::MIN {
            push_decimal(s, 9223372036854775808u64);
        } else {
            push_decimal(s, (-n) as u64);
        }
        assert(s@ =~= old(s)@ + signed_decimal(n as int));
    } else {
        push_decimal(s, n as u64);
    }
}

/// The decimal digits of `n`.
pub fn decimal_string(n: u64) -> (s: String)
    ensures
        s@ == decimal(n as nat),
{
    let mut s = String::new();
    push_decimal(&mut s, n);
    assert(s@ =~= decimal(n as nat));
    s
}

/// The two decimal digits of a number below a hundred.
pub open spec fn two_digits(n: nat) -> Seq<char> {
    seq![digit(n / 10), digit(n % 10)]
}

/// Appends `n` with at least two digits.
pub fn push_two_digits(s: &mut String, n: u64)
    requires
        n < 100,
    ensures
        final(s)@ == old(s)@ + two_digits(n as nat),
{
    s.push(digit_char((n / 10) as u8));
    s.push(digit_char((n % 10) as u8));
    assert(s@ =~= old(s)@ + two_digits(n as nat));
}

/// The hexadecimal digit of a value below sixteen.
pub open spec fn hex_digit(d: nat, upper: bool) -> char {
    if d < 10 {
        digit(d)
    } else if upper {
        (('A' as int) + d - 10) as char
    } else {
        (('a' as int) + d - 10) as char
    }
}

/// The hexadecimal digits of `n`, padded with zeros to `width` digits.
pub open spec fn hex(n: nat, width: nat, upper: bool) -> Seq<char>
    decreases width,
{
    if width == 0 {
        Seq::empty()
    } else {
        hex(n / 16, (width - 1) as nat, upper).push(hex_digit(n % 16, upper))
    }
}

/// The hexadecimal digit of a value below sixteen.
pub fn hex_digit_char(d: u8, upper: bool) -> (c: char)
    requires
        d < 16,
    ensures
        c == hex_digit(d as nat, upper),
{
    if d < 10 {
        digit_char(d)
    } else if upper {
        (65u8 + (d - 10)) as char
    } else {
        (97u8 + (d - 10)) as char
    }
}

/// Appends the low `width` hexadecimal digits of `n`.
pub fn push_hex(s: &mut String, n: u32, width: u32, upper: bool)
    ensures
        final(s)@ == old(s)@ + hex(n as nat, width as nat, upper),
    decreases width,
{
    if width > 0 {
        push_hex(s, n / 16, width - 1, upper);
        s.push(hex_digit_char((n % 16) as u8, upper));
    }
    assert(s@ =~= old(s)@ + hex(n as nat, width as nat, upper));
}

/// The number that a run of decimal digits stands for.
pub open spec fn digits_value(s: Seq<char>) -> nat
    decreases s.len(),
{
    if s.len() == 0 {
        0
    } else {
        digits_value(s.drop_last()) * 10 + (s.last() as nat - '0' as nat) as nat
    }
}

/// More digits never make a number smaller.
pub proof fn lemma_digits_grow(s: Seq<char>, n: int)
    requires
        0 <= n <= s.len(),
    ensures
        digits_value(s.take(n)) <= digits_value(s),
    decreases s.len() - n,
{
    if n == s.len() {
        assert(s.take(n) =~= s);
    } else {
        assert(s.take(n + 1).drop_last() =~= s.take(n));
        lemma_digits_grow(s, n + 1);
    }
}

/// `s` without one leading plus sign.
pub open spec fn without_plus(s: Seq<char>) -> Seq<char> {
    if s.len() > 0 && s[0] == '+' {
        s.skip(1)
    } else {
        s
    }
}

/// Reads an unsigned number: an optional plus sign and at least one digit, at most `max`.
pub open spec fn unsigned_of(s: Seq<char>, max: nat) -> Option<nat> {
    let d = without_plus(s);
    if d.len() > 0 && (forall|i: int| 0 <= i < d.len() ==> is_digit(#[trigger] d[i]))
        && digits_value(d) <= max {
        Some(digits_value(d))
    } else {
        None
    }
}

/// Reads an unsigned number of at most `max`.
pub fn parse_unsigned(chars: &[char], max: u64) -> (r: Option<u64>)
    ensures
        r is Some <==> unsigned_of(chars@, max as nat) is Some,
        r matches Some(v) ==> unsigned_of(chars@, max as nat) == Some(v as nat),
{
    let start: usize = if chars.len() > 0 && chars[0] == '+' {
        1
    } else {
        0
    };
    let ghost d = without_plus(chars@);
    assert(d == chars@.skip(start as int));
    if start == chars.len() {
        return None;
    }
    let mut value: u64 = 0;
    let mut over = false;
    let mut i: usize = start;
    while i < chars.len()
        invariant
            start <= i <= chars@.len(),
            d == chars@.skip(start as int),
            d.len() == chars@.len() - start,
            d == without_plus(chars@),
            forall|k: int| 0 <= k < i - start ==> is_digit(#[trigger] d[k]),
            !over ==> value as nat == digits_value(d.take(i - start)) && value <= max,
            over ==> digits_value(d.take(i - start)) > max,
        decreases chars.len() - i,
    {
        let c = chars[i];
        assert(d[i - start] == c);
        if !('0' <= c && c <= '9') {
            return None;
        }
        assert(d.take(i + 1 - start).drop_last() =~= d.take(i - start));
        let v: u128 = (value as u128) * 10 + ((c as u32) - 48) as u128;
        if !over {
            if v > max as u128 {
                over = true;
            } else {
                value = v as u64;
            }
        }
        i = i + 1;
    }
    assert(d.take(d.len() as int) =~= d);
    if over {
        None
    } else {
        Some(value)
    }
}

/// The value of a hexadecimal digit of either case.
pub open spec fn hex_value(c: char) -> Option<nat> {
    if '0' <= c <= '9' {
        Some((c as nat - '0' as nat) as nat)
    } else if 'a' <= c <= 'f' {
        Some((c as nat - 'a' as nat + 10) as nat)
    } else if 'A' <= c <= 'F' {
        Some((c as nat - 'A' as nat + 10) as nat)
    } else {
        None
    }
}

/// The value of a hexadecimal digit of either case.
pub fn parse_hex_digit(c: char) -> (r: Option<u8>)
    ensures
        r is Some <==> hex_value(c) is Some,
        r matches Some(v) ==> hex_value(c) == Some(v as nat) && v < 16,
{
    if '0' <= c && c <= '9' {
        Some(((c as u32) - 48) as u8)
    } else if 'a' <= c && c <= 'f' {
        Some(((c as u32) - 97 + 10) as u8)
    } else if 'A' <= c && c <= 'F' {
        Some(((c as u32) - 65 + 10) as u8)
    } else {
        None
    }
}

// ---------------------------------------------------------------------------
// Pieces
// ---------------------------------------------------------------------------

/// The pieces of `s` between the occurrences of `sep`, in order.
pub open spec fn pieces(s: Seq<char>, sep: char) -> Seq<Seq<char>>
    decreases s.len(),
{
    if s.len() == 0 {
        seq![Seq::empty()]
    } else {
        let before = pieces(s.drop_last(), sep);
        if s.last() == sep {
            before.push(Seq::empty())
        } else {
            before.update(before.len() - 1, before.last().push(s.last()))
        }
    }
}

/// The parts one after another with `sep` between neighbours.
pub open spec fn joined(parts: Seq<Seq<char>>, sep: Seq<char>) -> Seq<char>
    decreases parts.len(),
{
    if parts.len() == 0 {
        Seq::empty()
    } else if parts.len() == 1 {
        parts[0]
    } else {
        joined(parts.drop_last(), sep) + sep + parts.last()
    }
}

/// A character that the separator does not hold is in what was joined if and only if it is in
/// one of the parts.
pub proof fn lemma_joined_holds(parts: Seq<Seq<char>>, sep: Seq<char>, c: char)
    requires
        !sep.contains(c),
    ensures
        joined(parts, sep).contains(c) <==> exists|i: int|
            0 <= i < parts.len() && (#[trigger] parts[i]).contains(c),
    decreases parts.len(),
{
    if parts.len() == 1 {
        assert(parts[0] == joined(parts, sep));
    } else if parts.len() > 1 {
        let before = parts.drop_last();
        lemma_joined_holds(before, sep, c);
        let head = joined(before, sep);
        let all = joined(parts, sep);
        let tail = parts.last();
        if all.contains(c) {
            let k = all.index_of(c);
            assert(all[k] == c);
            if k < head.len() {
                assert(head[k] == c);
                let i = choose|i: int| 0 <= i < before.len() && (#[trigger] before[i]).contains(c);
                assert(parts[i] == before[i]);
            } else if k < head.len() + sep.len() {
                assert(sep[k - head.len()] == c);
            } else {
                assert(tail[k - head.len() - sep.len()] == c);
                assert(parts[parts.len() - 1].contains(c));
            }
        }
        if exists|i: int| 0 <= i < parts.len() && (#[trigger] parts[i]).contains(c) {
            let i = choose|i: int| 0 <= i < parts.len() && (#[trigger] parts[i]).contains(c);
            if i < before.len() {
                assert(before[i].contains(c));
                let k = head.index_of(c);
                assert(all[k] == c);
            } else {
                let k = tail.index_of(c);
                assert(all[head.len() + sep.len() + k] == c);
            }
        }
    } else {
        assert(!joined(parts, sep).contains(c));
    }
}

/// The views of a list of strings.
pub open spec fn texts(v: Seq<String>) -> Seq<Seq<char>> {
    Seq::new(v.len(), |i: int| v[i]@)
}

/// There is always at least one piece.
pub proof fn lemma_pieces_nonempty(s: Seq<char>, sep: char)
    ensures
        pieces(s, sep).len() > 0,
    decreases s.len(),
{
    if s.len() > 0 {
        lemma_pieces_nonempty(s.drop_last(), sep);
    }
}

/// Cutting a string and joining the pieces with the separator gives the string back.
pub proof fn lemma_pieces_join(s: Seq<char>, sep: char)
    ensures
        joined(pieces(s, sep), seq![sep]) == s,
    decreases s.len(),
{
    if s.len() > 0 {
        let before = pieces(s.drop_last(), sep);
        lemma_pieces_nonempty(s.drop_last(), sep);
        lemma_pieces_join(s.drop_last(), sep);
        if s.last() == sep {
            let all = before.push(Seq::empty());
            assert(all.drop_last() =~= before);
            assert(joined(all, seq![sep]) =~= s);
        } else {
            let all = before.update(before.len() - 1, before.last().push(s.last()));
            assert(all.drop_last() =~= before.drop_last());
            assert(all.last() == before.last().push(s.last()));
            assert(joined(before, seq![sep]) == s.drop_last());
            if before.len() > 1 {
                assert(joined(all, seq![sep]) =~= joined(before, seq![sep]).push(s.last()));
            }
            assert(joined(all, seq![sep]) =~= s);
        }
    }
}

/// No piece holds the separator.
pub proof fn lemma_pieces_free_of_separator(s: Seq<char>, sep: char, i: int, k: int)
    requires
        0 <= i < pieces(s, sep).len(),
        0 <= k < pieces(s, sep)[i].len(),
    ensures
        pieces(s, sep)[i][k] != sep,
    decreases s.len(),
{
    if s.len() > 0 {
        let before = pieces(s.drop_last(), sep);
        lemma_pieces_nonempty(s.drop_last(), sep);
        if i < before.len() - 1 || (i == before.len() - 1 && (s.last() == sep || k
            < before.last().len())) {
            lemma_pieces_free_of_separator(s.drop_last(), sep, i, k);
        }
    }
}

/// The views of a list of character vectors.
pub open spec fn char_lists(v: Seq<Vec<char>>) -> Seq<Seq<char>> {
    Seq::new(v.len(), |i: int| v[i]@)
}

/// Cuts `chars` at every occurrence of `sep`.
pub fn split(chars: &[char], sep: char) -> (parts: Vec<Vec<char>>)
    ensures
        char_lists(parts@) == pieces(chars@, sep),
        parts@.len() > 0,
{
    let mut parts: Vec<Vec<char>> = Vec::new();
    let mut current: Vec<char> = Vec::new();
    let mut i: usize = 0;
    assert(char_lists(parts@).push(current@) =~= pieces(chars@.take(0), sep));
    while i < chars.len()
        invariant
            i <= chars@.len(),
            char_lists(parts@).push(current@) == pieces(chars@.take(i as int), sep),
        decreases chars.len() - i,
    {
        let ghost done = parts@;
        let ghost open = current@;
        let c = chars[i];
        assert(chars@.take(i + 1).drop_last() =~= chars@.take(i as int));
        if c == sep {
            parts.push(current);
            current = Vec::new();
            assert(char_lists(parts@) =~= char_lists(done).push(open));
        } else {
            current.push(c);
            assert(char_lists(done).push(open).update(done.len() as int, open.push(c))
                =~= char_lists(parts@).push(current@));
        }
        i = i + 1;
    }
    assert(chars@.take(chars@.len() as int) =~= chars@);
    let ghost done = parts@;
    let ghost open = current@;
    parts.push(current);
    assert(char_lists(parts@) =~= char_lists(done).push(open));
    parts
}

/// Whether `s` begins with `prefix`.
pub open spec fn begins_with(s: Seq<char>, prefix: Seq<char>) -> bool {
    prefix.len() <= s.len() && s.take(prefix.len() as int) == prefix
}

/// Whether `chars` begins with `prefix`.
pub fn starts_with(chars: &[char], prefix: &[char]) -> (r: bool)
    ensures
        r == begins_with(chars@, prefix@),
{
    if prefix.len() > chars.len() {
        return false;
    }
    let mut i: usize = 0;
    while i < prefix.len()
        invariant
            i <= prefix@.len() <= chars@.len(),
            forall|k: int| 0 <= k < i ==> chars@[k] == prefix@[k],
        decreases prefix.len() - i,
    {
        if chars[i] != prefix[i] {
            assert(chars@.take(prefix@.len() as int)[i as int] != prefix@[i as int]);
            return false;
        }
        i = i + 1;
    }
    assert(chars@.take(prefix@.len() as int) =~= prefix@);
    true
}

/// The parts one after another with `sep` between neighbours.
pub fn join(parts: &[String], sep: &str) -> (s: String)
    ensures
        s@ == joined(texts(parts@), sep@),
{
    let mut s = String::new();
    let mut i: usize = 0;
    assert(texts(parts@).take(0) =~= Seq::empty());
    while i < parts.len()
        invariant
            i <= parts@.len(),
            s@ == joined(texts(parts@).take(i as int), sep@),
        decreases parts.len() - i,
    {
        assert(texts(parts@).take(i + 1).drop_last() =~= texts(parts@).take(i as int));
        if i > 0 {
            s.append(sep);
        }
        s.append(parts[i].as_str());
        assert(s@ =~= joined(texts(parts@).take(i + 1), sep@));
        i = i + 1;
    }
    assert(texts(parts@).take(parts@.len() as int) =~= texts(parts@));
    s
}

// ---------------------------------------------------------------------------
// Order
// ---------------------------------------------------------------------------

/// `a` and `b` agree before position `i`, where `a` ends first or holds the smaller character.
pub open spec fn parts_at(a: Seq<char>, b: Seq<char>, i: int) -> bool {
    &&& 0 <= i <= a.len()
    &&& i < b.len()
    &&& forall|k: int| 0 <= k < i ==> a[k] == b[k]
    &&& i < a.len() ==> a[i] < b[i]
}

/// The lexicographic order of strings: `a` comes strictly before `b`.
pub open spec fn precedes(a: Seq<char>, b: Seq<char>) -> bool {
    exists|i: int| #[trigger] parts_at(a, b, i)
}

/// Of two different strings exactly one comes first, and none comes before itself.
pub proof fn lemma_precedes_total(a: Seq<char>, b: Seq<char>)
    ensures
        a == b ==> !precedes(a, b),
        a != b ==> (precedes(a, b) != precedes(b, a)),
        !(precedes(a, b) && precedes(b, a)),
{
    if precedes(a, b) && precedes(b, a) {
        let i = choose|i: int| #[trigger] parts_at(a, b, i);
        let j = choose|j: int| #[trigger] parts_at(b, a, j);
        if i < j {
            assert(b[i] == a[i]);
        } else if j < i {
            assert(a[j] == b[j]);
        }
    }
    if !precedes(a, b) && !precedes(b, a) {
        lemma_common_prefix(a, b, if a.len() < b.len() { a.len() } else { b.len() });
        if a.len() < b.len() {
            assert(parts_at(a, b, a.len() as int));
        } else if b.len() < a.len() {
            assert(parts_at(b, a, b.len() as int));
        }
        assert(a =~= b);
    }
}

proof fn lemma_common_prefix(a: Seq<char>, b: Seq<char>, n: nat)
    requires
        n <= a.len(),
        n <= b.len(),
        !precedes(a, b),
        !precedes(b, a),
    ensures
        forall|k: int| 0 <= k < n ==> a[k] == b[k],
    decreases n,
{
    if n > 0 {
        lemma_common_prefix(a, b, (n - 1) as nat);
        assert(!parts_at(a, b, n - 1));
        assert(!parts_at(b, a, n - 1));
    }
}

/// The order of strings is transitive.
pub proof fn lemma_precedes_transitive(a: Seq<char>, b: Seq<char>, c: Seq<char>)
    requires
        precedes(a, b),
        precedes(b, c),
    ensures
        precedes(a, c),
{
    let i = choose|i: int| #[trigger] parts_at(a, b, i);
    let j = choose|j: int| #[trigger] parts_at(b, c, j);
    if i <= j {
        assert(parts_at(a, c, i));
    } else {
        assert(parts_at(a, c, j));
    }
}

/// Whether `a` comes strictly before `b`.
pub fn comes_before(a: &[char], b: &[char]) -> (r: bool)
    ensures
        r == precedes(a@, b@),
{
    let mut i: usize = 0;
    while i < a.len() && i < b.len()
        invariant
            i <= a@.len(),
            i <= b@.len(),
            forall|k: int| 0 <= k < i ==> a@[k] == b@[k],
        decreases a.len() - i,
    {
        if a[i] != b[i] {
            if a[i] < b[i] {
                assert(parts_at(a@, b@, i as int));
                return true;
            }
            assert(parts_at(b@, a@, i as int));
            proof {
                lemma_precedes_total(a@, b@);
            }
            return false;
        }
        i = i + 1;
    }
    if i < b.len() {
        assert(parts_at(a@, b@, i as int));
        true
    } else {
        proof {
            if precedes(a@, b@) {
                let j = choose|j: int| #[trigger] parts_at(a@, b@, j);
                assert(a@[j] == b@[j]);
            }
        }
        false
    }
}

// ---------------------------------------------------------------------------
// Unicode
// ---------------------------------------------------------------------------

/// The characters with the Unicode property White_Space.
pub open spec fn whitespace(c: char) -> bool {
    let n = c as int;
    ||| 0x9 <= n <= 0xd
    ||| n == 0x20
    ||| n == 0x85
    ||| n == 0xa0
    ||| n == 0x1680
    ||| 0x2000 <= n <= 0x200a
    ||| n == 0x2028
    ||| n == 0x2029
    ||| n == 0x202f
    ||| n == 0x205f
    ||| n == 0x3000
}

/// Whether `c` has the Unicode property White_Space.
pub fn is_whitespace(c: char) -> (r: bool)
    ensures
        r == whitespace(c),
{
    let n: u32 = c as u32;
    (0x9 <= n && n <= 0xd) || n == 0x20 || n == 0x85 || n == 0xa0 || n == 0x1680 || (0x2000 <= n
        && n <= 0x200a) || n == 0x2028 || n == 0x2029 || n == 0x202f || n == 0x205f || n == 0x3000
}

/// `s` without the white space at both ends.
pub open spec fn trimmed(s: Seq<char>) -> Seq<char>
    decreases s.len(),
{
    if s.len() > 0 && whitespace(s[0]) {
        trimmed(s.skip(1))
    } else if s.len() > 0 && whitespace(s.last()) {
        trimmed(s.drop_last())
    } else {
        s
    }
}

/// What is left of a string has no white space at its ends, and nothing more is taken from a
/// string that has none there.
pub proof fn lemma_trimmed(s: Seq<char>)
    ensures
        trimmed(s).len() > 0 ==> !whitespace(trimmed(s)[0]) && !whitespace(trimmed(s).last()),
        s.len() > 0 && !whitespace(s[0]) && !whitespace(s.last()) ==> trimmed(s) == s,
    decreases s.len(),
{
    if s.len() > 0 && whitespace(s[0]) {
        lemma_trimmed(s.skip(1));
    } else if s.len() > 0 && whitespace(s.last()) {
        lemma_trimmed(s.drop_last());
    }
}

/// The string without the white space at both ends.
pub fn trim(s: &str) -> (r: Vec<char>)
    ensures
        r@ == trimmed(s@),
{
    let chars = chars_of(s);
    let mut from: usize = 0;
    let mut to: usize = chars.len();
    assert(chars@.subrange(0, chars@.len() as int) =~= chars@);
    while from < to && is_whitespace(chars[from])
        invariant
            from <= to <= chars@.len(),
            trimmed(chars@.subrange(from as int, to as int)) == trimmed(s@),
        decreases to - from,
    {
        assert(chars@.subrange(from as int, to as int).skip(1) =~= chars@.subrange(
            from + 1,
            to as int,
        ));
        from = from + 1;
    }
    while from < to && is_whitespace(chars[to - 1])
        invariant
            from <= to <= chars@.len(),
            trimmed(chars@.subrange(from as int, to as int)) == trimmed(s@),
            from < to ==> !whitespace(chars@[from as int]),
        decreases to - from,
    {
        assert(chars@.subrange(from as int, to as int).drop_last() =~= chars@.subrange(
            from as int,
            to - 1,
        ));
        to = to - 1;
    }
    let mut r: Vec<char> = Vec::new();
    let mut i: usize = from;
    while i < to
        invariant
            from <= i <= to <= chars@.len(),
            r@ == chars@.subrange(from as int, i as int),
        decreases to - i,
    {
        r.push(chars[i]);
        i = i + 1;
        assert(r@ =~= chars@.subrange(from as int, i as int));
    }
    r
}

/// A Latin letter without an accent, or one of the ten digits.
pub open spec fn ascii_alphanumeric(c: char) -> bool {
    ||| 'a' <= c <= 'z'
    ||| 'A' <= c <= 'Z'
    ||| '0' <= c <= '9'
}

/// Whether a character beyond ASCII is a letter or a number, as `char::is_alphanumeric` tells it.
pub uninterp spec fn unicode_alphanumeric(c: char) -> bool;

/// Whether `c` is a letter or a number.
pub open spec fn alphanumeric(c: char) -> bool {
    if (c as u32) < 128 {
        ascii_alphanumeric(c)
    } else {
        unicode_alphanumeric(c)
    }
}

/// `char::is_alphanumeric`: whether the character has the Unicode property Alphabetic or one of
/// the number categories. In ASCII these are `a` to `z`, `A` to `Z` and `0` to `9`; of any other
/// character the result depends on the character alone, and is left to the Unicode tables of std.
#[verifier::external_body]
pub(crate) fn is_alphanumeric(c: char) -> (r: bool)
    ensures
        (c as u32) < 128 ==> r == ascii_alphanumeric(c),
        (c as u32) >= 128 ==> r == unicode_alphanumeric(c),
{
    c.is_alphanumeric()
}

/// The lower-case form of a text, as `str::to_lowercase` gives it.
pub uninterp spec fn lowercase(s: Seq<char>) -> Seq<char>;

/// `str::to_lowercase`: the text with every character replaced by its Unicode lower-case mapping.
/// The result depends on the text alone; the mapping itself is left to the tables of std.
#[verifier::external_body]
pub(crate) fn to_lowercase(s: &str) -> (r: String)
    ensures
        r@ == lowercase(s@),
{
    s.to_lowercase()
}

/// `part` occurs in `s` at position `i`.
pub open spec fn occurs_at(s: Seq<char>, part: Seq<char>, i: int) -> bool {
    0 <= i && i + part.len() <= s.len() && s.subrange(i, i + part.len()) == part
}

/// `part` occurs somewhere in `s`.
pub open spec fn occurs_in(s: Seq<char>, part: Seq<char>) -> bool {
    exists|i: int| #[trigger] occurs_at(s, part, i)
}

/// Whether `part` occurs somewhere in `s`.
pub fn contains(s: &[char], part: &[char]) -> (r: bool)
    ensures
        r == occurs_in(s@, part@),
{
    let n: usize = s.len();
    if part.len() > n {
        return false;
    }
    let mut i: usize = 0;
    while i <= n - part.len()
        invariant
            n == s@.len(),
            part@.len() <= n,
            i <= s@.len() - part@.len() + 1,
            forall|k: int| 0 <= k < i ==> !#[trigger] occurs_at(s@, part@, k),
        decreases n - part.len() + 1 - i,
    {
        let mut k: usize = 0;
        while k < part.len() && s[i + k] == part[k]
            invariant
                n == s@.len(),
                i + part@.len() <= n,
                k <= part@.len(),
                forall|j: int| 0 <= j < k ==> s@[i + j] == part@[j],
            decreases part.len() - k,
        {
            k = k + 1;
        }
        if k == part.len() {
            assert(s@.subrange(i as int, i + part@.len()) =~= part@);
            assert(occurs_at(s@, part@, i as int));
            return true;
        }
        assert(s@.subrange(i as int, i + part@.len())[k as int] != part@[k as int]);
        i = i + 1;
    }
    assert forall|k: int| !#[trigger] occurs_at(s@, part@, k) by {}
    false
}

/// A number in decimal consists of digits, which stand for it, and does not begin with a zero.
pub proof fn lemma_decimal_digits(n: nat)
    ensures
        decimal(n).len() > 0,
        forall|i: int| 0 <= i < decimal(n).len() ==> is_digit(#[trigger] decimal(n)[i]),
        digits_value(decimal(n)) == n,
        n > 0 ==> decimal(n)[0] != '0',
    decreases n,
{
    if n < 10 {
        assert(decimal(n).drop_last() =~= Seq::empty());
        assert(digits_value(decimal(n).drop_last()) == 0);
    } else {
        lemma_decimal_digits(n / 10);
        assert(decimal(n).drop_last() =~= decimal(n / 10));
    }
}

/// A number that is written in decimal is read back, also with a plus sign before it, and it has
/// no zeros before its digits. It is refused where it is too large.
pub proof fn law_decimal_read_back(n: nat, max: nat)
    ensures
        unsigned_of(decimal(n), max) == (if n <= max {
            Some(n)
        } else {
            None
        }),
        unsigned_of(seq!['+'] + decimal(n), max) == unsigned_of(decimal(n), max),
        n > 0 ==> decimal(n)[0] != '0',
        decimal(0) == seq!['0'],
{
    lemma_decimal_digits(n);
    assert(is_digit(decimal(n)[0]));
    assert((seq!['+'] + decimal(n)).skip(1) =~= decimal(n));
}

/// What is read as a number is a run of digits with at most a plus sign before it; a digit more at
/// its end makes it ten times as large and adds the digit.
pub proof fn law_reading_digits(s: Seq<char>, c: char, max: nat, v: nat)
    requires
        unsigned_of(s, max) == Some(v),
    ensures
        v <= max,
        is_digit(c) && v * 10 + (c as int - '0' as int) <= max ==> unsigned_of(s.push(c), max)
            == Some((v * 10 + (c as int - '0' as int)) as nat),
        !is_digit(c) ==> unsigned_of(s.push(c), max) is None,
        is_digit(c) && v * 10 + (c as int - '0' as int) > max ==> unsigned_of(s.push(c), max) is None,
{
    let d = without_plus(s);
    let e = without_plus(s.push(c));
    assert(e =~= d.push(c));
    assert(e.drop_last() =~= d);
    assert forall|i: int| 0 <= i < d.len() implies is_digit(#[trigger] e[i]) by {
        assert(e[i] == d[i]);
    }
    assert(e[d.len() as int] == c);
}

/// The number that hexadecimal digits of either case stand for.
pub open spec fn hex_number(s: Seq<char>) -> nat
    decreases s.len(),
{
    if s.len() == 0 {
        0
    } else {
        hex_number(s.drop_last()) * 16 + hex_value(s.last())->0
    }
}

/// A digit of either case is read back. A number in hexadecimal has just as many digits as asked
/// for, and is read back where it fits them.
pub proof fn law_hex_read_back(n: nat, width: nat, upper: bool)
    ensures
        n < 16 ==> hex_value(hex_digit(n, upper)) == Some(n),
        hex(n, width, upper).len() == width,
        n < vstd::arithmetic::power::pow(16, width) ==> hex_number(hex(n, width, upper)) == n,
    decreases width,
{
    vstd::arithmetic::power::lemma_pow_positive(16, width);
    if width == 0 {
        vstd::arithmetic::power::lemma_pow0(16);
    } else {
        law_hex_read_back(n / 16, (width - 1) as nat, upper);
        law_hex_digit(n % 16, upper);
        assert(hex(n, width, upper).drop_last() =~= hex(n / 16, (width - 1) as nat, upper));
        let p = vstd::arithmetic::power::pow(16, (width - 1) as nat);
        assert(vstd::arithmetic::power::pow(16, width) == 16 * p) by {
            reveal(vstd::arithmetic::power::pow);
        }
        if n < 16 * p {
            assert(n / 16 < p) by (nonlinear_arith)
                requires
                    n < 16 * p,
            ;
        }
    }
}

/// The digits below ten are the decimal ones; those above are letters of the case asked for.
pub proof fn law_hex_digit(d: nat, upper: bool)
    requires
        d < 16,
    ensures
        hex_value(hex_digit(d, upper)) == Some(d),
        d < 10 ==> is_digit(hex_digit(d, upper)),
        d >= 10 && upper ==> 'A' <= hex_digit(d, upper) <= 'F',
        d >= 10 && !upper ==> 'a' <= hex_digit(d, upper) <= 'f',
{
}

/// A number below a hundred has two digits that stand for it, and an integer is written as its
/// size, with a minus sign if it is negative.
pub proof fn law_small_numbers(n: nat)
    ensures
        n < 100 ==> two_digits(n).len() == 2 && digits_value(two_digits(n)) == n && is_digit(
            two_digits(n)[0],
        ) && is_digit(two_digits(n)[1]),
        signed_decimal(n as int) == decimal(n),
        n > 0 ==> signed_decimal(-(n as int)) == seq!['-'] + decimal(n),
{
    if n < 100 {
        let two = two_digits(n);
        assert(two.drop_last() =~= seq![digit(n / 10)]);
        assert(two.drop_last().drop_last() =~= Seq::empty());
        assert(digits_value(two.drop_last().drop_last()) == 0);
        assert(digits_value(two.drop_last()) == n / 10);
    }
}

/// The order of strings: nothing comes before the empty string, a string comes before every longer
/// one that begins with it, and the first characters that differ decide.
pub proof fn law_precedes(a: Seq<char>, b: Seq<char>, c: char, d: char, s: Seq<char>)
    ensures
        !precedes(a, Seq::empty()),
        b.len() > 0 ==> precedes(a, a + b),
        c < d ==> precedes(s.push(c) + a, s.push(d) + b),
{
    if b.len() > 0 {
        assert(parts_at(a, a + b, a.len() as int));
    }
    if c < d {
        assert(parts_at(s.push(c) + a, s.push(d) + b, s.len() as int));
    }
}

/// The characters of a string are all white space.
pub open spec fn blank(s: Seq<char>) -> bool {
    forall|k: int| 0 <= k < s.len() ==> whitespace(#[trigger] s[k])
}

/// Trimming takes away white space at the ends and nothing else: a core that begins and ends with
/// other characters is what is left of it between any blanks, and nothing is left of blanks.
pub proof fn law_trimmed_ends(a: Seq<char>, core: Seq<char>, b: Seq<char>)
    requires
        blank(a),
        blank(b),
        core.len() > 0 ==> !whitespace(core[0]) && !whitespace(core.last()),
    ensures
        trimmed(a + core + b) == core,
    decreases a.len() + b.len(),
{
    let s = a + core + b;
    if a.len() > 0 {
        let rest = a.skip(1);
        assert forall|k: int| 0 <= k < rest.len() implies whitespace(#[trigger] rest[k]) by {
            assert(rest[k] == a[k + 1]);
        }
        law_trimmed_ends(rest, core, b);
        assert(s.skip(1) =~= rest + core + b);
        assert(s[0] == a[0]);
    } else if b.len() > 0 {
        let rest = b.drop_last();
        assert forall|k: int| 0 <= k < rest.len() implies whitespace(#[trigger] rest[k]) by {
            assert(rest[k] == b[k]);
        }
        assert(s.last() == b[b.len() - 1]);
        if core.len() == 0 {
            assert(b.skip(1) + core + a =~= s.skip(1));
            assert(s[0] == b[0]);
            let tail = b.skip(1);
            assert forall|k: int| 0 <= k < tail.len() implies whitespace(#[trigger] tail[k]) by {
                assert(tail[k] == b[k + 1]);
            }
            law_trimmed_ends(tail, core, a);
        } else {
            law_trimmed_ends(a, core, rest);
            assert(s.drop_last() =~= a + core + rest);
            assert(s[0] == core[0]);
        }
    } else {
        assert(s =~= core);
    }
}

/// A part occurs in every string that it is put into, and in none that is shorter.
pub proof fn law_occurs(a: Seq<char>, part: Seq<char>, b: Seq<char>, s: Seq<char>)
    ensures
        occurs_in(a + part + b, part),
        s.len() < part.len() ==> !occurs_in(s, part),
        s.len() == part.len() ==> (occurs_in(s, part) <==> s == part),
{
    let all = a + part + b;
    assert(all.subrange(a.len() as int, (a.len() + part.len()) as int) =~= part);
    assert(occurs_at(all, part, a.len() as int));
    if s.len() == part.len() {
        if occurs_in(s, part) {
            let i = choose|i: int| #[trigger] occurs_at(s, part, i);
            assert(s.subrange(i, i + part.len()) =~= s);
        }
        if s == part {
            assert(s.subrange(0, part.len() as int) =~= s);
            assert(occurs_at(s, part, 0));
        }
    }
}

/// Up to 127 a character is a letter or a digit if and only if it stands between `a` and `z`, `A`
/// and `Z` or `0` and `9`, these included; upper and lower case letters go together.
pub proof fn law_letters_and_digits(c: char, d: char)
    ensures
        'a' <= c <= 'z' || 'A' <= c <= 'Z' || '0' <= c <= '9' ==> alphanumeric(c),
        (c as int) < 128 && alphanumeric(c) ==> 'a' <= c <= 'z' || 'A' <= c <= 'Z' || '0' <= c
            <= '9',
        c as int + 32 == d as int && 'A' <= c <= 'Z' ==> alphanumeric(c) && alphanumeric(d),
        (c as int) >= 128 ==> alphanumeric(c) == unicode_alphanumeric(c),
{
}

/// White space: the tab and the four line breaks that follow it, the space, the next-line control,
/// the spaces that do not break, those of the general punctuation, its two separators, and the
/// ideographic space. Nothing that can be seen is white space.
pub proof fn law_white_space(c: char)
    ensures
        c == '\t' || c == '\n' || c == '\r' || c == ' ' ==> whitespace(c),
        (c as int) < 0x80 && whitespace(c) ==> c == ' ' || '\t' <= c <= '\r',
        alphanumeric(c) && (c as int) < 128 ==> !whitespace(c),
        0x80 <= (c as int) < 0x2000 ==> (whitespace(c) <==> c as int == 0x85 || c as int == 0xa0
            || c as int == 0x1680),
        0x2000 <= (c as int) < 0x2100 ==> (whitespace(c) <==> (c as int) <= 0x200a || c as int
            == 0x2028 || c as int == 0x2029 || c as int == 0x202f || c as int == 0x205f),
        (c as int) >= 0x2100 ==> (whitespace(c) <==> c as int == 0x3000),
        '\t' <= c <= '\r' ==> whitespace(c),
{
}

/// The digits are the ten characters from `0` on, in order, and stand for their distance from it.
pub proof fn law_digits(n: nat, c: char)
    ensures
        n < 10 ==> is_digit(digit(n)) && digit(n) as int - '0' as int == n,
        is_digit(c) <==> 0 <= c as int - '0' as int && c as int - ('0' as int) < 10,
        is_digit(c) ==> alphanumeric(c) && !whitespace(c),
{
}

/// A string begins with a part if and only if it is that part with something behind it, which may
/// be nothing.
pub proof fn law_begins_with(s: Seq<char>, part: Seq<char>, rest: Seq<char>)
    ensures
        begins_with(part + rest, part),
        begins_with(s, part) <==> s.len() >= part.len() && s == part + s.skip(part.len() as int),
        s.len() < part.len() ==> !begins_with(s, part),
{
    assert((part + rest).take(part.len() as int) =~= part);
    if begins_with(s, part) {
        assert(s =~= part + s.skip(part.len() as int));
    }
    if s.len() >= part.len() && s == part + s.skip(part.len() as int) {
        assert(s.take(part.len() as int) =~= part);
    }
}

} // verus!
