//! Text helpers: comparison, search, decimal numbers, case mapping and quoting.

use vstd::prelude::*;
use vstd::string::StringExecFns;

verus! {

/// `String::push` appends the character.
pub assume_specification[ String::push ](s: &mut String, c: char)
    ensures
        final(s)@ == old(s)@.push(c),
;

/// The lower-case form of a text that is not all ASCII, by Unicode's rules.
pub uninterp spec fn unicode_lowercase(s: Seq<char>) -> Seq<char>;

/// The upper-case form of a character outside ASCII, by Unicode's rules.
pub uninterp spec fn unicode_uppercase(c: char) -> Seq<char>;

/// Whether every character is ASCII.
pub open spec fn ascii(s: Seq<char>) -> bool {
    forall|i: int| 0 <= i < s.len() ==> (#[trigger] s[i] as u32) < 128
}

/// ASCII letters `A` to `Z` become `a` to `z`; other characters stay.
pub open spec fn ascii_lower(c: char) -> char {
    if 'A' <= c <= 'Z' {
        (c as u32 + 32) as char
    } else {
        c
    }
}

/// ASCII letters `a` to `z` become `A` to `Z`; other characters stay.
pub open spec fn ascii_upper(c: char) -> char {
    if 'a' <= c <= 'z' {
        (c as u32 - 32) as char
    } else {
        c
    }
}

/// The lower-case form of a text.
pub open spec fn lowercase(s: Seq<char>) -> Seq<char> {
    if ascii(s) {
        s.map_values(|c: char| ascii_lower(c))
    } else {
        unicode_lowercase(s)
    }
}

/// The upper-case form of a character.
pub open spec fn uppercase(c: char) -> Seq<char> {
    if (c as u32) < 128 {
        seq![ascii_upper(c)]
    } else {
        unicode_uppercase(c)
    }
}

/// `str::to_lowercase`. On ASCII text it maps each letter `A` to `Z` to its
/// lower-case form and keeps the rest; on other text its result is a function of
/// the text alone.
#[verifier::external_body]
pub(crate) fn to_lowercase(s: &str) -> (r: String)
    ensures
        ascii(s@) ==> r@ == s@.map_values(|c: char| ascii_lower(c)),
        !ascii(s@) ==> r@ == unicode_lowercase(s@),
{
    s.to_lowercase()
}

/// `char::to_uppercase`. An ASCII letter `a` to `z` becomes its upper-case form
/// and any other ASCII character stays; for other characters the result is
/// a function of the character alone, of one or more characters.
#[verifier::external_body]
pub(crate) fn to_uppercase(c: char) -> (r: String)
    ensures
        (c as u32) < 128 ==> r@ == seq![ascii_upper(c)],
        (c as u32) >= 128 ==> r@ == unicode_uppercase(c),
        r@.len() >= 1,
{
    c.to_uppercase().to_string()
}

/// Whether two texts are the same.
pub fn same(a: &str, b: &str) -> (r: bool)
    ensures
        r == (a@ == b@),
{
    a.to_owned() == b.to_owned()
}

/// The characters of a text.
pub fn characters(s: &str) -> (r: Vec<char>)
    ensures
        r@ == s@,
{
    let mut r: Vec<char> = Vec::new();
    for c in it: s.chars()
        invariant
            r@ == it.seq().take(it.index()),
            it.seq() == s@,
    {
        r.push(c);
    }
    proof {
        assert(s@.take(s@.len() as int) =~= s@);
    }
    r
}

/// Whether `needle` occurs in `s` at position `at`.
pub open spec fn occurs_at(s: Seq<char>, needle: Seq<char>, at: int) -> bool {
    0 <= at <= s.len() - needle.len() && s.subrange(at, at + needle.len()) == needle
}

/// Whether `needle` occurs in `s`.
pub open spec fn contains_text(s: Seq<char>, needle: Seq<char>) -> bool {
    exists|at: int| occurs_at(s, needle, at)
}

/// Whether `s` begins with `prefix`.
pub open spec fn begins_with(s: Seq<char>, prefix: Seq<char>) -> bool {
    occurs_at(s, prefix, 0)
}

fn matches_at(s: &Vec<char>, needle: &Vec<char>, at: usize) -> (r: bool)
    requires
        at <= s@.len(),
    ensures
        r == occurs_at(s@, needle@, at as int),
{
    let length = s.len();
    if needle.len() > length - at {
        return false;
    }
    let mut i: usize = 0;
    while i < needle.len()
        invariant
            i <= needle@.len(),
            at + needle@.len() <= length == s@.len(),
            forall|j: int| 0 <= j < i ==> s@[at + j] == needle@[j],
        decreases needle@.len() - i,
    {
        if s[at + i] != needle[i] {
            proof {
                assert(s@.subrange(at as int, at + needle@.len())[i as int] == s@[at + i]);
            }
            return false;
        }
        i = i + 1;
    }
    proof {
        assert(s@.subrange(at as int, at + needle@.len()) =~= needle@);
    }
    true
}

/// Whether `needle` occurs in `s`.
pub fn contains(s: &str, needle: &str) -> (r: bool)
    ensures
        r == contains_text(s@, needle@),
{
    let text = characters(s);
    let part = characters(needle);
    let mut at: usize = 0;
    loop
        invariant
            text@ == s@,
            part@ == needle@,
            at <= text@.len(),
            forall|j: int| 0 <= j < at ==> !occurs_at(s@, needle@, j),
        decreases text@.len() - at,
    {
        if matches_at(&text, &part, at) {
            return true;
        }
        if at == text.len() {
            return false;
        }
        at = at + 1;
    }
}

/// A part occurs in every text that was put together around it, and every text
/// that it occurs in is put together so; a text begins with its first part.
pub proof fn law_parts_occur(before: Seq<char>, part: Seq<char>, after: Seq<char>)
    ensures
        contains_text(before + part + after, part),
        begins_with(part + after, part),
        forall|s: Seq<char>| #[trigger]
            contains_text(s, part) ==> exists|a: Seq<char>, b: Seq<char>|
                s == #[trigger] (a + part + b),
        forall|s: Seq<char>| #[trigger] begins_with(s, part) ==> s == part + s.skip(
            part.len() as int,
        ),
{
    let whole = before + part + after;
    assert(whole.subrange(before.len() as int, before.len() as int + part.len()) =~= part);
    assert(occurs_at(whole, part, before.len() as int));
    assert((part + after).subrange(0, part.len() as int) =~= part);
    assert forall|s: Seq<char>| #[trigger] contains_text(s, part) implies exists|
        a: Seq<char>,
        b: Seq<char>,
    |
        s == #[trigger] (a + part + b) by {
        let at = choose|at: int| occurs_at(s, part, at);
        let a = s.take(at);
        let b = s.skip(at + part.len());
        assert(s =~= a + s.subrange(at, at + part.len()) + b);
        assert(s == a + part + b);
    }
    assert forall|s: Seq<char>| #[trigger] begins_with(s, part) implies s == part + s.skip(
        part.len() as int,
    ) by {
        assert(s =~= s.subrange(0, part.len() as int) + s.skip(part.len() as int));
    }
}

/// Whether `s` ends with `suffix`.
pub open spec fn ends_with(s: Seq<char>, suffix: Seq<char>) -> bool {
    occurs_at(s, suffix, s.len() - suffix.len())
}

/// Whether `s` begins with `prefix`.
pub fn starts_with(s: &str, prefix: &str) -> (r: bool)
    ensures
        r == begins_with(s@, prefix@),
{
    let text = characters(s);
    let part = characters(prefix);
    matches_at(&text, &part, 0)
}

/// The character of a decimal digit.
pub open spec fn digit(d: nat) -> char {
    (48 + d) as char
}

/// A natural number in decimal, without leading zeros.
pub open spec fn decimal(n: nat) -> Seq<char>
    decreases n,
{
    if n < 10 {
        seq![digit(n)]
    } else {
        decimal(n / 10).push(digit(n % 10))
    }
}

/// An integer in decimal, with a minus sign where it is negative.
pub open spec fn signed_decimal(n: int) -> Seq<char> {
    if n < 0 {
        seq!['-'] + decimal((-n) as nat)
    } else {
        decimal(n as nat)
    }
}

/// Appends a number in decimal.
pub fn append_decimal(out: &mut String, n: u64)
    ensures
        final(out)@ == old(out)@ + decimal(n as nat),
    decreases n,
{
    let d: u8 = (n % 10) as u8;
    let c: char = (48 + d) as char;
    if n < 10 {
        out.push(c);
        assert(old(out)@.push(c) =~= old(out)@ + seq![c]);
    } else {
        append_decimal(out, n / 10);
        out.push(c);
        assert((old(out)@ + decimal((n / 10) as nat)).push(c) =~= old(out)@ + decimal(
            (n / 10) as nat,
        ).push(c));
    }
}

/// Appends a signed number in decimal.
pub fn append_signed(out: &mut String, n: i64)
    ensures
        final(out)@ == old(out)@ + signed_decimal(n as int),
{
    if n < 0 {
        out.push('-');
        let m: u64 = if n == i64::MIN { 0x8000_0000_0000_0000 } else { (-n) as u64 };
        append_decimal(out, m);
        assert(old(out)@.push('-') + decimal(m as nat) =~= old(out)@ + (seq!['-'] + decimal(
            m as nat,
        )));
    } else {
        append_decimal(out, n as u64);
    }
}

/// The number that decimal digits stand for.
pub open spec fn digits_value(s: Seq<char>) -> int
    decreases s.len(),
{
    if s.len() == 0 {
        0
    } else {
        10 * digits_value(s.drop_last()) + (s.last() as int - 48)
    }
}

/// A number in decimal is made of digits that stand for it, without a leading
/// zero; a negative one has a minus sign before them.
pub proof fn law_decimal_reads_back(n: nat)
    ensures
        digits_value(decimal(n)) == n,
        decimal(n).len() > 0,
        forall|i: int| 0 <= i < decimal(n).len() ==> '0' <= #[trigger] decimal(n)[i] <= '9',
        n > 0 ==> decimal(n)[0] != '0',
        n == 0 ==> decimal(n).len() == 1,
        signed_decimal(n as int) == decimal(n),
        n > 0 ==> signed_decimal(-n) == seq!['-'] + decimal(n),
    decreases n,
{
    let s = decimal(n);
    if n < 10 {
        assert(s.drop_last() =~= Seq::<char>::empty());
        assert(digits_value(s.drop_last()) == 0);
    } else {
        law_decimal_reads_back(n / 10);
        assert(s.drop_last() =~= decimal(n / 10));
    }
}

/// The text with its first character in upper case.
pub open spec fn title_cased(s: Seq<char>) -> Seq<char> {
    if s.len() == 0 {
        Seq::empty()
    } else {
        uppercase(s[0]) + s.skip(1)
    }
}

/// "max" becomes "Max": the first letter in upper case, the rest unchanged.
pub fn title_case(s: &str) -> (r: String)
    ensures
        r@ == title_cased(s@),
        r@.len() == 0 <==> s@.len() == 0,
{
    let n = s.unicode_len();
    if n == 0 {
        return String::new();
    }
    let mut r = to_uppercase(s.get_char(0));
    r.append(s.substring_char(1, n));
    assert(s@.subrange(1, n as int) =~= s@.skip(1));
    r
}

/// Whether the upper case of a character begins with a character that is its own
/// upper case.
pub open spec fn settles(c: char) -> bool {
    uppercase(c).len() > 0 && uppercase(uppercase(c)[0]) == seq![uppercase(c)[0]]
}

/// The rest of a text is unchanged. A second time changes nothing, of a text that
/// is empty or begins in ASCII; and of any other exactly where the upper case of
/// its first character settles.
pub proof fn law_title_case(s: Seq<char>)
    ensures
        s.len() > 0 ==> title_cased(s) == uppercase(s[0]) + s.skip(1),
        s.len() == 0 || (s[0] as u32) < 128 ==> title_cased(title_cased(s)) == title_cased(s),
        s.len() > 0 && uppercase(s[0]).len() > 0 ==> (title_cased(title_cased(s)) == title_cased(s)
            <==> settles(s[0])),
{
    if s.len() > 0 && uppercase(s[0]).len() > 0 {
        let once = title_cased(s);
        let twice = title_cased(once);
        let first = once[0];
        assert(first == uppercase(s[0])[0]);
        assert(twice == uppercase(first) + once.skip(1));
        if settles(s[0]) {
            assert(twice =~= once);
        }
        if twice == once {
            assert(uppercase(first).len() == 1);
            assert(twice[0] == uppercase(first)[0]);
            assert(uppercase(first) =~= seq![first]);
        }
        if (s[0] as u32) < 128 {
            assert(ascii_upper(ascii_upper(s[0])) == ascii_upper(s[0]));
        }
    }
}

/// How a character stands inside a quoted AppleScript text: a backslash or a
/// double quote gets a backslash before it.
pub open spec fn escaped_char(c: char) -> Seq<char> {
    if c == '\\' {
        seq!['\\', '\\']
    } else if c == '"' {
        seq!['\\', '"']
    } else {
        seq![c]
    }
}

/// How a text stands inside a quoted AppleScript text.
pub open spec fn escaped(s: Seq<char>) -> Seq<char>
    decreases s.len(),
{
    if s.len() == 0 {
        Seq::empty()
    } else {
        escaped(s.drop_last()) + escaped_char(s.last())
    }
}

/// A text without a backslash and a double quote stands there as it is.
pub proof fn law_plain_text_is_kept(s: Seq<char>)
    requires
        forall|i: int| 0 <= i < s.len() ==> #[trigger] s[i] != '\\' && s[i] != '"',
    ensures
        escaped(s) == s,
    decreases s.len(),
{
    if s.len() > 0 {
        assert forall|i: int| 0 <= i < s.drop_last().len() implies #[trigger] s.drop_last()[i]
            != '\\' && s.drop_last()[i] != '"' by {
            assert(s.drop_last()[i] == s[i]);
        }
        law_plain_text_is_kept(s.drop_last());
        assert(s.last() == s[s.len() - 1]);
        assert(s =~= s.drop_last() + seq![s.last()]);
    } else {
        assert(s =~= Seq::empty());
    }
}

/// Makes a text safe inside a quoted AppleScript text.
pub fn escape_applescript(value: &str) -> (r: String)
    ensures
        r@ == escaped(value@),
{
    let mut r = String::new();
    for c in it: value.chars()
        invariant
            it.seq() == value@,
            r@ == escaped(value@.take(it.index())),
    {
        let ghost before = r@;
        proof {
            let t = value@.take(it.index() + 1);
            assert(t.drop_last() =~= value@.take(it.index()));
            assert(t.last() == c);
        }
        if c == '\\' {
            r.push('\\');
            r.push('\\');
            assert(r@ =~= before + seq!['\\', '\\']);
        } else if c == '"' {
            r.push('\\');
            r.push('"');
            assert(r@ =~= before + seq!['\\', '"']);
        } else {
            r.push(c);
            assert(r@ =~= before + seq![c]);
        }
    }
    proof {
        assert(value@.take(value@.len() as int) =~= value@);
    }
    r
}

} // verus!
