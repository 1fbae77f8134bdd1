//! Character-level text handling: trimming, splitting, number parsing and
//! printing, all on sequences of characters.

use vstd::prelude::*;

verus! {

/// Appends one character, as `String::push` documents.
pub assume_specification[ std::string::String::push ](s: &mut std::string::String, ch: char)
    ensures
        final(s)@ == old(s)@.push(ch),
;

/// Characters with the Unicode property `White_Space`.
pub open spec fn white(c: char) -> bool {
    let u = c as u32;
    ||| 0x9 <= u <= 0xd
    ||| u == 0x20
    ||| u == 0x85
    ||| u == 0xa0
    ||| u == 0x1680
    ||| 0x2000 <= u <= 0x200a
    ||| u == 0x2028
    ||| u == 0x2029
    ||| u == 0x202f
    ||| u == 0x205f
    ||| u == 0x3000
}

/// `c` with an ASCII capital letter made small.
pub open spec fn lower(c: char) -> char {
    if 0x41 <= c as u32 <= 0x5a {
        ((c as u32 + 32) as u8) as char
    } else {
        c
    }
}

/// `s` with its ASCII capital letters made small.
pub open spec fn lower_all(s: Seq<char>) -> Seq<char> {
    Seq::new(s.len(), |i: int| lower(s[i]))
}

/// `s` without leading white space.
pub open spec fn trim_start(s: Seq<char>) -> Seq<char>
    decreases s.len(),
{
    if s.len() > 0 && white(s[0]) {
        trim_start(s.drop_first())
    } else {
        s
    }
}

/// `s` without trailing white space.
pub open spec fn trim_end(s: Seq<char>) -> Seq<char>
    decreases s.len(),
{
    if s.len() > 0 && white(s.last()) {
        trim_end(s.drop_last())
    } else {
        s
    }
}

/// `s` without white space at either end.
pub open spec fn trim(s: Seq<char>) -> Seq<char> {
    trim_end(trim_start(s))
}

/// The parts of `s` between the occurrences of `sep`.
pub open spec fn split(s: Seq<char>, sep: char) -> Seq<Seq<char>>
    decreases s.len(),
{
    if s.len() == 0 {
        seq![Seq::<char>::empty()]
    } else {
        let before = split(s.drop_last(), sep);
        if s.last() == sep {
            before.push(Seq::empty())
        } else {
            before.update(before.len() - 1, before.last().push(s.last()))
        }
    }
}

/// Splitting always yields at least one part.
pub proof fn lemma_split_not_empty(s: Seq<char>, sep: char)
    ensures
        split(s, sep).len() >= 1,
    decreases s.len(),
{
    if s.len() > 0 {
        lemma_split_not_empty(s.drop_last(), sep);
    }
}

/// Value of a digit, for any radix up to sixteen.
pub open spec fn digit_value(c: char) -> nat {
    let u = c as u32;
    if 0x30 <= u <= 0x39 {
        (u - 0x30) as nat
    } else if 0x61 <= u <= 0x66 {
        (u - 0x61 + 10) as nat
    } else if 0x41 <= u <= 0x46 {
        (u - 0x41 + 10) as nat
    } else {
        16
    }
}

/// Whether all of `s` are digits of the radix.
pub open spec fn all_digits(s: Seq<char>, radix: nat) -> bool {
    forall|i: int| 0 <= i < s.len() ==> digit_value(#[trigger] s[i]) < radix
}

/// The number that a sequence of digits writes down.
pub open spec fn digits_number(s: Seq<char>, radix: nat) -> nat
    decreases s.len(),
{
    if s.len() == 0 {
        0
    } else {
        digits_number(s.drop_last(), radix) * radix + digit_value(s.last())
    }
}

/// A number in the given radix, with an optional leading plus sign, that is no
/// larger than `limit`; anything else is no number.
pub open spec fn parsed_number(s: Seq<char>, radix: nat, limit: nat) -> Option<nat> {
    let body = if s.len() > 1 && s[0] == '+' {
        s.drop_first()
    } else {
        s
    };
    if body.len() > 0 && all_digits(body, radix) && digits_number(body, radix) <= limit {
        Some(digits_number(body, radix))
    } else {
        None
    }
}

/// The character of a decimal digit.
pub open spec fn decimal_digit(d: nat) -> char {
    (0x30 + d) as u8 as char
}

/// Decimal digits of `n`, without leading zeros.
pub open spec fn decimal(n: nat) -> Seq<char>
    decreases n,
{
    if n < 10 {
        seq![decimal_digit(n)]
    } else {
        decimal(n / 10).push(decimal_digit(n % 10))
    }
}

/// A number reads back from its decimal digits.
pub proof fn decimal_reads_back(n: nat)
    ensures
        decimal(n).len() > 0,
        all_digits(decimal(n), 10),
        decimal(n)[0] != '+',
        digits_number(decimal(n), 10) == n,
    decreases n,
{
    let last = decimal_digit(n % 10);
    assert(digit_value(last) == n % 10);
    if n < 10 {
        assert(decimal(n).drop_last() =~= Seq::<char>::empty());
        assert(digits_number(Seq::<char>::empty(), 10) == 0);
    } else {
        decimal_reads_back(n / 10);
        assert(decimal(n).drop_last() =~= decimal(n / 10));
    }
}

/// Parsing the decimal digits of a number gives the number back.
pub proof fn decimal_parses_back(n: nat, limit: nat)
    requires
        n <= limit,
    ensures
        parsed_number(decimal(n), 10, limit) == Some(n),
{
    decimal_reads_back(n);
}

/// Whether `c` is white space.
pub fn is_white(c: char) -> (r: bool)
    ensures
        r == white(c),
{
    let u: u32 = c as u32;
    (0x9 <= u && u <= 0xd) || u == 0x20 || u == 0x85 || u == 0xa0 || u == 0x1680 || (0x2000 <= u
        && u <= 0x200a) || u == 0x2028 || u == 0x2029 || u == 0x202f || u == 0x205f || u == 0x3000
}

/// The characters of a string.
pub fn chars_of(s: &str) -> (v: Vec<char>)
    ensures
        v@ == s@,
{
    let mut v: Vec<char> = Vec::new();
    for c in it: s.chars()
        invariant
            v@ == s@.take(it.index() as int),
            it.seq() == s@,
    {
        v.push(c);
    }
    assert(v@ =~= s@);
    v
}

/// A string made of the given characters.
pub fn string_of(chars: &[char]) -> (s: String)
    ensures
        s@ == chars@,
{
    let mut s: String = String::new();
    let mut i: usize = 0;
    while i < chars.len()
        invariant
            i <= chars@.len(),
            s@ == chars@.take(i as int),
        decreases chars@.len() - i,
    {
        s.push(chars[i]);
        i = i + 1;
        assert(chars@.take(i as int) =~= chars@.take(i - 1).push(chars@[i - 1]));
    }
    assert(chars@.take(i as int) =~= chars@);
    s
}

/// Appends a string to another one.
pub fn append(to: &mut String, more: &str)
    ensures
        final(to)@ == old(to)@ + more@,
{
    let chars: Vec<char> = chars_of(more);
    let mut i: usize = 0;
    assert(to@ =~= old(to)@ + more@.take(0));
    while i < chars.len()
        invariant
            i <= chars@.len(),
            chars@ == more@,
            to@ == old(to)@ + more@.take(i as int),
        decreases chars@.len() - i,
    {
        to.push(chars[i]);
        i = i + 1;
        assert(to@ =~= old(to)@ + more@.take(i as int));
    }
    assert(more@.take(i as int) =~= more@);
}

/// Whether two strings hold the same characters.
pub fn same_text(a: &[char], b: &str) -> (r: bool)
    ensures
        r == (a@ == b@),
{
    let text: Vec<char> = chars_of(b);
    if a.len() != text.len() {
        return false;
    }
    let mut i: usize = 0;
    while i < a.len()
        invariant
            i <= a@.len(),
            text@ == b@,
            a@.len() == b@.len(),
            forall|k: int| 0 <= k < i ==> a@[k] == b@[k],
        decreases a@.len() - i,
    {
        if a[i] != text[i] {
            return false;
        }
        i = i + 1;
    }
    assert(a@ =~= b@);
    true
}

/// Whether two strings hold the same characters.
pub fn same_str(a: &str, b: &str) -> (r: bool)
    ensures
        r == (a@ == b@),
{
    let chars: Vec<char> = chars_of(a);
    same_text(chars.as_slice(), b)
}

/// The characters of an optional string.
pub open spec fn text_view(s: Option<String>) -> Option<Seq<char>> {
    match s {
        Some(t) => Some(t@),
        None => None,
    }
}

/// The characters of an optional string slice.
pub open spec fn str_view(s: Option<&str>) -> Option<Seq<char>> {
    match s {
        Some(t) => Some(t@),
        None => None,
    }
}

/// ASCII-lowercased character.
pub fn to_lower_char(c: char) -> (r: char)
    ensures
        r == lower(c),
{
    let u: u32 = c as u32;
    if 0x41 <= u && u <= 0x5a {
        (u as u8 + 32) as char
    } else {
        c
    }
}

/// Value of a digit, sixteen for anything else.
fn to_digit(c: char) -> (d: u64)
    ensures
        d == digit_value(c),
{
    let u: u32 = c as u32;
    if 0x30 <= u && u <= 0x39 {
        (u - 0x30) as u64
    } else if 0x61 <= u && u <= 0x66 {
        (u - 0x61 + 10) as u64
    } else if 0x41 <= u && u <= 0x46 {
        (u - 0x41 + 10) as u64
    } else {
        16
    }
}

/// ASCII-lowercased copy.
pub fn to_lower(s: &[char]) -> (r: Vec<char>)
    ensures
        r@ == lower_all(s@),
{
    let mut r: Vec<char> = Vec::new();
    let mut i: usize = 0;
    while i < s.len()
        invariant
            i <= s@.len(),
            r@ == lower_all(s@.take(i as int)),
        decreases s@.len() - i,
    {
        r.push(to_lower_char(s[i]));
        i = i + 1;
        assert(r@ =~= lower_all(s@.take(i as int)));
    }
    assert(s@.take(i as int) =~= s@);
    r
}

/// Copy without white space at either end.
pub fn trimmed(s: &[char]) -> (r: Vec<char>)
    ensures
        r@ == trim(s@),
{
    let mut from: usize = 0;
    assert(s@.skip(0) =~= s@);
    while from < s.len() && is_white(s[from])
        invariant
            from <= s@.len(),
            trim_start(s@) == trim_start(s@.skip(from as int)),
        decreases s@.len() - from,
    {
        assert(s@.skip(from as int).drop_first() =~= s@.skip(from + 1));
        from = from + 1;
    }
    let ghost rest = s@.skip(from as int);
    assert(trim_start(s@) == rest);
    let mut to: usize = s.len();
    assert(rest.take(to - from) =~= rest);
    while from < to && is_white(s[to - 1])
        invariant
            from <= to <= s@.len(),
            rest == s@.skip(from as int),
            trim_end(rest) == trim_end(rest.take(to - from)),
        decreases to,
    {
        assert(rest.take(to - from).last() == s@[to - 1]);
        assert(rest.take(to - from).drop_last() =~= rest.take(to - from - 1));
        to = to - 1;
    }
    let ghost kept = rest.take(to - from);
    assert(kept.len() > 0 ==> kept.last() == s@[to - 1]);
    assert(trim_end(rest) == kept);
    let mut r: Vec<char> = Vec::new();
    let mut i: usize = from;
    while i < to
        invariant
            from <= i <= to <= s@.len(),
            r@ =~= s@.subrange(from as int, i as int),
        decreases to - i,
    {
        r.push(s[i]);
        i = i + 1;
    }
    assert(kept =~= s@.subrange(from as int, to as int));
    r
}

/// Copy without leading white space.
pub fn trimmed_start(s: &[char]) -> (r: Vec<char>)
    ensures
        r@ == trim_start(s@),
{
    let mut from: usize = 0;
    assert(s@.skip(0) =~= s@);
    while from < s.len() && is_white(s[from])
        invariant
            from <= s@.len(),
            trim_start(s@) == trim_start(s@.skip(from as int)),
        decreases s@.len() - from,
    {
        assert(s@.skip(from as int).drop_first() =~= s@.skip(from + 1));
        from = from + 1;
    }
    let ghost rest = s@.skip(from as int);
    assert(trim_start(s@) == rest);
    let mut r: Vec<char> = Vec::new();
    let mut i: usize = from;
    while i < s.len()
        invariant
            from <= i <= s@.len(),
            r@ =~= s@.subrange(from as int, i as int),
        decreases s@.len() - i,
    {
        r.push(s[i]);
        i = i + 1;
    }
    assert(rest =~= s@.subrange(from as int, s@.len() as int));
    r
}

/// Views of a list of character lists.
pub open spec fn parts_view(parts: Seq<Vec<char>>) -> Seq<Seq<char>> {
    Seq::new(parts.len(), |i: int| parts[i]@)
}

/// The parts of `s` between the occurrences of `sep`.
pub fn split_on(s: &[char], sep: char) -> (parts: Vec<Vec<char>>)
    ensures
        parts_view(parts@) == split(s@, sep),
{
    let mut parts: Vec<Vec<char>> = Vec::new();
    let mut current: Vec<char> = Vec::new();
    let mut i: usize = 0;
    assert(parts_view(parts@).push(current@) =~= seq![Seq::<char>::empty()]);
    while i < s.len()
        invariant
            i <= s@.len(),
            parts_view(parts@).push(current@) == split(s@.take(i as int), sep),
        decreases s@.len() - i,
    {
        let c: char = s[i];
        let ghost before = split(s@.take(i as int), sep);
        assert(s@.take(i + 1).drop_last() =~= s@.take(i as int));
        assert(s@.take(i + 1).last() == c);
        if c == sep {
            let ghost old_parts = parts@;
            parts.push(current);
            current = Vec::new();
            assert(parts_view(parts@) =~= before);
            assert(parts_view(parts@).push(current@) =~= before.push(Seq::empty()));
        } else {
            let ghost old_current = current@;
            current.push(c);
            assert(before.last() == old_current);
            assert(parts_view(parts@).push(current@) =~= before.update(
                before.len() - 1,
                before.last().push(c),
            ));
        }
        i = i + 1;
    }
    assert(s@.take(i as int) =~= s@);
    let ghost old_parts = parts@;
    parts.push(current);
    assert(parts_view(parts@) =~= parts_view(old_parts).push(current@));
    parts
}

/// Reads a number; `limit` is the largest one that is accepted.
pub fn parse_number(s: &[char], radix: u64, limit: u64) -> (r: Option<u64>)
    requires
        2 <= radix <= 16,
    ensures
        r is Some <==> parsed_number(s@, radix as nat, limit as nat) is Some,
        r is Some ==> r->0 == parsed_number(s@, radix as nat, limit as nat)->0,
{
    let from: usize = if s.len() > 1 && s[0] == '+' { 1 } else { 0 };
    let ghost body = if from == 1 { s@.drop_first() } else { s@ };
    assert(body =~= s@.skip(from as int));
    if from >= s.len() {
        return None;
    }
    let mut value: u128 = 0;
    let mut i: usize = from;
    assert(body.take(0) =~= Seq::<char>::empty());
    while i < s.len()
        invariant
            from <= i <= s@.len(),
            2 <= radix <= 16,
            body == s@.skip(from as int),
            body == (if s@.len() > 1 && s@[0] == '+' {
                s@.drop_first()
            } else {
                s@
            }),
            all_digits(body.take(i - from), radix as nat),
            value == digits_number(body.take(i - from), radix as nat),
            value <= limit,
        decreases s@.len() - i,
    {
        let c: char = s[i];
        let d: u64 = to_digit(c);
        assert(body[i - from] == c);
        if d >= radix {
            assert(digit_value(body[i - from]) >= radix);
            return None;
        }
        let ghost next = body.take(i + 1 - from);
        assert(next.drop_last() =~= body.take(i - from));
        assert(next.last() == c);
        proof {
            assert(value * radix <= 0xffff_ffff_ffff_ffff * 16) by (nonlinear_arith)
                requires
                    value <= 0xffff_ffff_ffff_ffff,
                    radix <= 16,
            ;
        }
        value = value * radix as u128 + d as u128;
        assert(value == digits_number(next, radix as nat));
        assert forall|k: int| 0 <= k < next.len() implies digit_value(#[trigger] next[k]) < radix by {
            if k < i - from {
                assert(next[k] == body.take(i - from)[k]);
            }
        }
        if value > limit as u128 {
            proof {
                lemma_digits_grow(body, radix as nat, i + 1 - from);
            }
            return None;
        }
        i = i + 1;
    }
    assert(body.take(i - from) =~= body);
    Some(value as u64)
}

/// More digits never write a smaller number.
proof fn lemma_digits_grow(s: Seq<char>, radix: nat, n: int)
    requires
        radix >= 1,
        0 <= n <= s.len(),
    ensures
        digits_number(s.take(n), radix) <= digits_number(s, radix),
    decreases s.len() - n,
{
    if n < s.len() {
        lemma_digits_grow(s, radix, n + 1);
        let next = s.take(n + 1);
        assert(next.drop_last() =~= s.take(n));
        let small = digits_number(s.take(n), radix);
        assert(small <= small * radix) by (nonlinear_arith)
            requires
                radix >= 1,
        ;
    } else {
        assert(s.take(n) =~= s);
    }
}

/// Writes a number in decimal.
pub fn to_decimal(n: u64) -> (s: String)
    ensures
        s@ == decimal(n as nat),
    decreases n,
{
    if n < 10 {
        let mut s: String = String::new();
        s.push((0x30 + n as u8) as char);
        assert(s@ =~= decimal(n as nat));
        s
    } else {
        let mut s: String = to_decimal(n / 10);
        s.push((0x30 + (n % 10) as u8) as char);
        s
    }
}

/// Trimming at the start takes away white space alone, and all of it.
proof fn lemma_trim_start(s: Seq<char>)
    ensures
        trim_start(s).len() <= s.len(),
        trim_start(s) == s.skip(s.len() - trim_start(s).len()),
        forall|j: int| 0 <= j < s.len() - trim_start(s).len() ==> white(#[trigger] s[j]),
        trim_start(s).len() > 0 ==> !white(trim_start(s)[0]),
    decreases s.len(),
{
    if s.len() > 0 && white(s[0]) {
        let rest = s.drop_first();
        lemma_trim_start(rest);
        let n = s.len() - trim_start(s).len();
        assert(rest.skip(n - 1) =~= s.skip(n));
        assert forall|j: int| 0 <= j < n implies white(#[trigger] s[j]) by {
            if j > 0 {
                assert(white(rest[j - 1]));
            }
        }
    } else {
        assert(s.skip(0) =~= s);
    }
}

/// Trimming at the end takes away white space alone, and all of it.
proof fn lemma_trim_end(s: Seq<char>)
    ensures
        trim_end(s).len() <= s.len(),
        trim_end(s) == s.take(trim_end(s).len() as int),
        forall|j: int| trim_end(s).len() <= j < s.len() ==> white(#[trigger] s[j]),
        trim_end(s).len() > 0 ==> !white(trim_end(s).last()),
    decreases s.len(),
{
    if s.len() > 0 && white(s.last()) {
        let rest = s.drop_last();
        lemma_trim_end(rest);
        let n = trim_end(s).len() as int;
        assert(rest.take(n) =~= s.take(n));
        assert forall|j: int| n <= j < s.len() implies white(#[trigger] s[j]) by {
            if j < s.len() - 1 {
                assert(white(rest[j]));
            }
        }
    } else {
        assert(s.take(s.len() as int) =~= s);
    }
}

/// A trimmed text is a part of the text with nothing but white space in front of
/// it and behind it, and neither starts nor ends with white space.
pub proof fn trimming_takes_the_white_ends(s: Seq<char>)
    ensures
        ({
            let t = trim(s);
            let from = s.len() - trim_start(s).len();
            let to = from + t.len();
            &&& 0 <= from <= to <= s.len()
            &&& t == s.subrange(from, to)
            &&& forall|j: int| 0 <= j < from ==> white(#[trigger] s[j])
            &&& forall|j: int| to <= j < s.len() ==> white(#[trigger] s[j])
            &&& t.len() > 0 ==> !white(t[0]) && !white(t.last())
        }),
{
    let start = trim_start(s);
    let t = trim(s);
    let from = s.len() - start.len();
    let to = from + t.len();
    lemma_trim_start(s);
    lemma_trim_end(start);
    assert(t =~= s.subrange(from, to));
    assert forall|j: int| to <= j < s.len() implies white(#[trigger] s[j]) by {
        assert(white(start[j - from]));
    }
    if t.len() > 0 {
        assert(t[0] == start[0]);
    }
}

/// Among the ASCII characters the space and those from tab to carriage return
/// are white.
pub proof fn white_ascii_characters(c: char)
    requires
        (c as u32) < 0x80,
    ensures
        white(c) <==> c == ' ' || '\t' as u32 <= c as u32 <= '\r' as u32,
{
}

/// A text with a separator in it is split into the parts of what is in front of
/// the separator and those of what is behind it.
pub proof fn separators_split_a_text(a: Seq<char>, sep: char, b: Seq<char>)
    ensures
        split(a.push(sep) + b, sep) == split(a, sep) + split(b, sep),
    decreases b.len(),
{
    let all = a.push(sep) + b;
    lemma_split_not_empty(a, sep);
    if b.len() == 0 {
        assert(all =~= a.push(sep));
        assert(all.drop_last() =~= a);
        assert(split(all, sep) =~= split(a, sep) + split(b, sep));
    } else {
        separators_split_a_text(a, sep, b.drop_last());
        lemma_split_not_empty(b.drop_last(), sep);
        assert(all.drop_last() =~= a.push(sep) + b.drop_last());
        assert(all.last() == b.last());
        assert(split(all, sep) =~= split(a, sep) + split(b, sep));
    }
}

/// A text without the separator is one part.
pub proof fn nothing_else_splits_a_text(s: Seq<char>, sep: char)
    requires
        !s.contains(sep),
    ensures
        split(s, sep) == seq![s],
    decreases s.len(),
{
    if s.len() > 0 {
        let rest = s.drop_last();
        assert(s[s.len() - 1] == s.last());
        assert(!rest.contains(sep)) by {
            if rest.contains(sep) {
                let k = choose|k: int| 0 <= k < rest.len() && rest[k] == sep;
                assert(s[k] == sep);
            }
        }
        nothing_else_splits_a_text(rest, sep);
        assert(rest.push(s.last()) =~= s);
        assert(split(s, sep) =~= seq![s]);
    } else {
        assert(s =~= Seq::<char>::empty());
    }
}

/// A small letter is as far behind `a` as its capital is behind `A`; nothing else
/// changes, and small letters stay.
pub proof fn small_letters_stand_for_capitals(c: char)
    ensures
        'A' as u32 <= c as u32 <= 'Z' as u32 ==> lower(c) as u32 - 'a' as u32 == c as u32
            - 'A' as u32,
        !('A' as u32 <= c as u32 <= 'Z' as u32) ==> lower(c) == c,
        lower(lower(c)) == lower(c),
{
}

/// The decimal digits count up from zero, the letters of hexadecimal digits count
/// on from ten whether they are small or capital, and nothing else is a digit.
pub proof fn digits_count_up(c: char)
    ensures
        digit_value('0') == 0,
        digit_value('a') == 10,
        digit_value(c) <= 16,
        '0' as u32 <= c as u32 <= '9' as u32 ==> digit_value(c) == c as u32 - '0' as u32,
        'a' as u32 <= c as u32 <= 'f' as u32 ==> digit_value(c) == 10 + (c as u32 - 'a' as u32),
        digit_value(lower(c)) == digit_value(c),
        digit_value(c) < 10 <==> '0' as u32 <= c as u32 <= '9' as u32,
        digit_value(c) < 16 <==> '0' as u32 <= c as u32 <= '9' as u32 || 'a' as u32 <= lower(
            c,
        ) as u32 <= 'f' as u32,
{
}

/// A further digit makes a number the radix times as large and adds its value;
/// leading zeros do not count.
pub proof fn digits_are_worth_their_place(s: Seq<char>, c: char, radix: nat)
    ensures
        digits_number(s.push(c), radix) == radix * digits_number(s, radix) + digit_value(c),
        digits_number(seq!['0'] + s, radix) == digits_number(s, radix),
    decreases s.len(),
{
    assert(s.push(c).drop_last() =~= s);
    assert(digits_number(s, radix) * radix == radix * digits_number(s, radix)) by (nonlinear_arith);
    let zero = seq!['0'] + s;
    if s.len() == 0 {
        assert(zero.drop_last() =~= s);
        assert(zero.last() == '0');
        assert(digits_number(s, radix) == 0);
        assert(0 * radix == 0) by (nonlinear_arith);
    } else {
        assert(zero.drop_last() =~= seq!['0'] + s.drop_last());
        digits_are_worth_their_place(s.drop_last(), c, radix);
    }
}

/// A text is a number if and only if it has digits of the radix alone, at least
/// one of them, and their number is within the limit. A plus sign in front of a
/// digit does not count.
pub proof fn numbers_are_made_of_digits(s: Seq<char>, radix: nat, limit: nat)
    requires
        s.len() > 0,
        s[0] != '+',
        radix <= 16,
    ensures
        parsed_number(s, radix, limit) is Some <==> (forall|i: int|
            0 <= i < s.len() ==> digit_value(#[trigger] s[i]) < radix) && digits_number(s, radix)
            <= limit,
        parsed_number(s, radix, limit) matches Some(n) ==> n <= limit && n == digits_number(
            s,
            radix,
        ),
        parsed_number(seq!['+'] + s, radix, limit) == parsed_number(s, radix, limit),
        parsed_number(seq!['+'], radix, limit) is None,
        parsed_number(Seq::empty(), radix, limit) is None,
{
    assert((seq!['+'] + s).drop_first() =~= s);
    assert(digit_value(seq!['+'][0]) == 16);
}

} // verus!
