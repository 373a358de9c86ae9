//! Text measured in UTF-8 bytes, and the few text operations the plan rules are stated with.

use vstd::prelude::*;
use vstd::string::StringExecFns;
use vstd::utf8::encode_utf8;

verus! {

/// `String::push` appends one character.
pub assume_specification[ String::push ](text: &mut String, ch: char)
    ensures
        final(text)@ == old(text)@.push(ch),
;

/// Bytes that the UTF-8 encoding of a character takes.
pub open spec fn char_bytes(c: char) -> nat {
    let scalar = c as u32;
    if scalar < 0x80 {
        1
    } else if scalar < 0x800 {
        2
    } else if scalar < 0x10000 {
        3
    } else {
        4
    }
}

/// Bytes that the UTF-8 encoding of a text takes.
pub open spec fn utf8_len(s: Seq<char>) -> nat
    decreases s.len(),
{
    if s.len() == 0 {
        0
    } else {
        char_bytes(s[0]) + utf8_len(s.drop_first())
    }
}

/// The byte count of this module is the length of the encoding.
pub proof fn lemma_utf8_len_is_encoding_len(s: Seq<char>)
    ensures
        utf8_len(s) == encode_utf8(s).len(),
    decreases s.len(),
{
    if s.len() > 0 {
        lemma_utf8_len_is_encoding_len(s.drop_first());
        vstd::utf8::char_is_scalar(s[0]);
    }
}

/// Concatenation adds byte counts.
pub proof fn lemma_utf8_len_concat(a: Seq<char>, b: Seq<char>)
    ensures
        utf8_len(a + b) == utf8_len(a) + utf8_len(b),
    decreases a.len(),
{
    if a.len() == 0 {
        assert(a + b =~= b);
    } else {
        lemma_utf8_len_concat(a.drop_first(), b);
        assert((a + b).drop_first() =~= a.drop_first() + b);
    }
}

pub proof fn lemma_utf8_len_push(a: Seq<char>, c: char)
    ensures
        utf8_len(a.push(c)) == utf8_len(a) + char_bytes(c),
{
    lemma_utf8_len_concat(a, seq![c]);
    assert(a.push(c) =~= a + seq![c]);
    assert(seq![c].drop_first() =~= Seq::<char>::empty());
    reveal_with_fuel(utf8_len, 2);
}

/// A text has at least as many bytes as characters.
pub proof fn lemma_utf8_len_at_least_chars(s: Seq<char>)
    ensures
        s.len() <= utf8_len(s),
    decreases s.len(),
{
    if s.len() > 0 {
        lemma_utf8_len_at_least_chars(s.drop_first());
    }
}

pub fn char_byte_count(c: char) -> (n: usize)
    ensures
        n == char_bytes(c),
        1 <= n <= 4,
{
    let scalar: u32 = c as u32;
    if scalar < 0x80 {
        1
    } else if scalar < 0x800 {
        2
    } else if scalar < 0x10000 {
        3
    } else {
        4
    }
}

/// The length of a text in bytes.
pub fn byte_len(s: &str) -> (n: usize)
    ensures
        n == utf8_len(s@),
{
    proof {
        lemma_utf8_len_is_encoding_len(s@);
    }
    s.as_bytes().len()
}

/// The characters of a text.
pub fn to_chars(s: &str) -> (chars: Vec<char>)
    ensures
        chars@ == s@,
{
    let mut chars: Vec<char> = Vec::new();
    for c in iter: s.chars()
        invariant
            chars@ == s@.take(iter.index() as int),
            iter.seq() == s@,
    {
        chars.push(c);
    }
    assert(s@.take(s@.len() as int) =~= s@);
    chars
}

/// The text of the characters in `from..to`.
pub fn from_chars(chars: &Vec<char>, from: usize, to: usize) -> (s: String)
    requires
        from <= to <= chars@.len(),
    ensures
        s@ == chars@.subrange(from as int, to as int),
{
    let mut s = String::new();
    let mut i: usize = from;
    while i < to
        invariant
            from <= i <= to <= chars@.len(),
            s@ == chars@.subrange(from as int, i as int),
        decreases to - i,
    {
        s.push(chars[i]);
        i += 1;
    }
    s
}

/// Whether two texts have the same characters.
pub fn same_text(a: &str, b: &str) -> (same: bool)
    ensures
        same == (a@ == b@),
{
    a.to_owned() == b.to_owned()
}

/// How many leading characters fit in `cap` bytes.
pub open spec fn clip_count(s: Seq<char>, cap: int) -> nat
    decreases s.len(),
{
    if s.len() == 0 || char_bytes(s[0]) > cap {
        0
    } else {
        1 + clip_count(s.drop_first(), cap - char_bytes(s[0]))
    }
}

/// The longest prefix that takes at most `cap` bytes; characters are never split.
pub open spec fn clip(s: Seq<char>, cap: int) -> Seq<char> {
    s.take(clip_count(s, cap) as int)
}

/// A clipped prefix respects its cap and no longer prefix does.
pub proof fn lemma_clip_is_longest_prefix(s: Seq<char>, cap: int)
    requires
        cap >= 0,
    ensures
        clip_count(s, cap) <= s.len(),
        utf8_len(clip(s, cap)) <= cap,
        forall|n: int|
            clip_count(s, cap) < n <= s.len() ==> utf8_len(#[trigger] s.take(n)) > cap,
        utf8_len(s) <= cap ==> clip(s, cap) == s,
    decreases s.len(),
{
    if s.len() > 0 && char_bytes(s[0]) <= cap {
        let rest = s.drop_first();
        let left = cap - char_bytes(s[0]);
        lemma_clip_is_longest_prefix(rest, left);
        let k = clip_count(s, cap) as int;
        assert(s.take(k).drop_first() =~= rest.take(k - 1));
        assert forall|n: int| k < n <= s.len() implies utf8_len(#[trigger] s.take(n)) > cap by {
            assert(s.take(n).drop_first() =~= rest.take(n - 1));
        }
        if utf8_len(s) <= cap {
            assert(clip(rest, left) == rest);
            assert(rest.take(clip_count(rest, left) as int).len() == rest.len());
            assert(clip(s, cap) =~= s);
        }
    } else {
        assert(s.take(0) =~= Seq::<char>::empty());
        assert forall|n: int| 0 < n <= s.len() implies utf8_len(#[trigger] s.take(n)) > cap by {
            assert(s.take(n)[0] == s[0]);
        }
        if s.len() == 0 {
            assert(clip(s, cap) =~= s);
        }
    }
}

/// The end of the longest run of characters from `from` that takes at most `cap` bytes.
pub fn clip_end(chars: &Vec<char>, from: usize, cap: usize) -> (end: usize)
    requires
        from <= chars@.len(),
    ensures
        end == from + clip_count(chars@.skip(from as int), cap as int),
        from <= end <= chars@.len(),
{
    let mut end: usize = from;
    let mut left: usize = cap;
    while end < chars.len() && char_byte_count(chars[end]) <= left
        invariant
            from <= end <= chars@.len(),
            end - from + clip_count(chars@.skip(end as int), left as int) == clip_count(
                chars@.skip(from as int),
                cap as int,
            ),
        decreases chars.len() - end,
    {
        assert(chars@.skip(end as int).drop_first() =~= chars@.skip(end + 1));
        left = left - char_byte_count(chars[end]);
        end += 1;
    }
    end
}

/// The longest prefix of a text that takes at most `cap` bytes.
pub fn clip_text(s: &str, cap: usize) -> (prefix: String)
    ensures
        prefix@ == clip(s@, cap as int),
        utf8_len(prefix@) <= cap,
{
    let chars = to_chars(s);
    let end = clip_end(&chars, 0, cap);
    proof {
        assert(chars@.skip(0) =~= chars@);
        lemma_clip_is_longest_prefix(s@, cap as int);
    }
    from_chars(&chars, 0, end)
}

/// The characters that trimming removes: those with the Unicode White_Space property.
pub open spec fn white(c: char) -> bool {
    let u = c as u32;
    ||| 0x9 <= u <= 0xd
    ||| u == 0x20
    ||| u == 0x85
    ||| u == 0xa0
    ||| u == 0x1680
    ||| 0x2000 <= u <= 0x200a
    ||| u == 0x2028
    ||| u == 0x2029
    ||| u == 0x202f
    ||| u == 0x205f
    ||| u == 0x3000
}

/// The control characters: those in the Unicode general category Cc.
pub open spec fn control(c: char) -> bool {
    let u = c as u32;
    u <= 0x1f || 0x7f <= u <= 0x9f
}

/// A text that trims to nothing.
pub open spec fn blank(s: Seq<char>) -> bool {
    forall|i: int| 0 <= i < s.len() ==> white(#[trigger] s[i])
}

pub fn is_white(c: char) -> (yes: bool)
    ensures
        yes == white(c),
{
    let u: u32 = c as u32;
    (0x9 <= u && u <= 0xd) || u == 0x20 || u == 0x85 || u == 0xa0 || u == 0x1680 || (0x2000 <= u
        && u <= 0x200a) || u == 0x2028 || u == 0x2029 || u == 0x202f || u == 0x205f || u == 0x3000
}

pub fn is_control(c: char) -> (yes: bool)
    ensures
        yes == control(c),
{
    let u: u32 = c as u32;
    u <= 0x1f || (0x7f <= u && u <= 0x9f)
}

/// Whether a text trims to nothing.
pub fn is_blank(s: &str) -> (yes: bool)
    ensures
        yes == blank(s@),
{
    let chars = to_chars(s);
    let mut i: usize = 0;
    while i < chars.len()
        invariant
            i <= chars@.len(),
            chars@ == s@,
            forall|k: int| 0 <= k < i ==> white(#[trigger] s@[k]),
        decreases chars.len() - i,
    {
        if !is_white(chars[i]) {
            return false;
        }
        i += 1;
    }
    true
}

/// Whether a text holds a control character.
pub open spec fn controlled(s: Seq<char>) -> bool {
    exists|i: int| 0 <= i < s.len() && control(#[trigger] s[i])
}

pub fn has_control(s: &str) -> (yes: bool)
    ensures
        yes == controlled(s@),
{
    let chars = to_chars(s);
    let mut i: usize = 0;
    while i < chars.len()
        invariant
            i <= chars@.len(),
            chars@ == s@,
            forall|k: int| 0 <= k < i ==> !control(#[trigger] s@[k]),
        decreases chars.len() - i,
    {
        if is_control(chars[i]) {
            return true;
        }
        i += 1;
    }
    false
}

/// The decimal digit for a value below ten.
pub open spec fn digit(d: int) -> char {
    (48 + d) as char
}

/// A natural number in decimal.
pub open spec fn decimal(n: nat) -> Seq<char>
    decreases n,
{
    if n < 10 {
        seq![digit(n as int)]
    } else {
        decimal(n / 10).push(digit((n % 10) as int))
    }
}

/// An integer in decimal, with a minus sign where it is negative.
pub open spec fn signed_decimal(n: int) -> Seq<char> {
    if n < 0 {
        seq!['-'] + decimal((-n) as nat)
    } else {
        decimal(n as nat)
    }
}

pub fn decimal_text(n: u64) -> (s: String)
    ensures
        s@ == decimal(n as nat),
    decreases n,
{
    let d: u8 = (n % 10) as u8;
    let c = (48u8 + d) as char;
    assert(c == digit(d as int));
    if n < 10 {
        let mut s = String::new();
        s.push(c);
        assert(s@ =~= seq![digit(n as int)]);
        s
    } else {
        let mut s = decimal_text(n / 10);
        s.push(c);
        s
    }
}

pub fn signed_decimal_text(n: i64) -> (s: String)
    ensures
        s@ == signed_decimal(n as int),
{
    if n < 0 {
        let mut s = String::new();
        s.push('-');
        let magnitude: u64 = if n == i64::MIN {
            0x8000_0000_0000_0000
        } else {
            (-n) as u64
        };
        s.append(decimal_text(magnitude).as_str());
        assert(s@ =~= seq!['-'] + decimal((-n) as nat));
        s
    } else {
        decimal_text(n as u64)
    }
}

/// The texts of a list of strings.
pub open spec fn texts(items: Seq<String>) -> Seq<Seq<char>> {
    items.map_values(|s: String| s@)
}

/// The text of a string where there is one.
pub open spec fn optional_text(text: Option<String>) -> Option<Seq<char>> {
    match text {
        Some(text) => Some(text@),
        None => None,
    }
}

/// Texts joined by a separator.
pub open spec fn joined(parts: Seq<Seq<char>>, sep: Seq<char>) -> Seq<char>
    decreases parts.len(),
{
    if parts.len() == 0 {
        Seq::empty()
    } else if parts.len() == 1 {
        parts[0]
    } else {
        joined(parts.drop_last(), sep) + sep + parts.last()
    }
}

pub fn join_texts(parts: &Vec<String>, sep: &str) -> (s: String)
    ensures
        s@ == joined(texts(parts@), sep@),
{
    let mut s = String::new();
    let mut i: usize = 0;
    while i < parts.len()
        invariant
            i <= parts@.len(),
            s@ == joined(texts(parts@).take(i as int), sep@),
        decreases parts.len() - i,
    {
        assert(texts(parts@).take(i + 1).drop_last() =~= texts(parts@).take(i as int));
        if i > 0 {
            s.append(sep);
        }
        s.append(parts[i].as_str());
        proof {
            if i == 0 {
                assert(s@ =~= texts(parts@)[0]);
            }
        }
        i += 1;
    }
    assert(texts(parts@).take(parts@.len() as int) =~= texts(parts@));
    s
}

pub fn clone_texts(items: &Vec<String>) -> (copy: Vec<String>)
    ensures
        copy@ == items@,
{
    let mut copy: Vec<String> = Vec::new();
    let mut i: usize = 0;
    while i < items.len()
        invariant
            i <= items@.len(),
            copy@ == items@.take(i as int),
        decreases items.len() - i,
    {
        copy.push(items[i].clone());
        i += 1;
    }
    assert(items@.take(items@.len() as int) =~= items@);
    copy
}

pub fn same_texts(a: &Vec<String>, b: &Vec<String>) -> (same: bool)
    ensures
        same == (texts(a@) == texts(b@)),
{
    if a.len() != b.len() {
        assert(texts(a@).len() != texts(b@).len());
        return false;
    }
    let mut i: usize = 0;
    while i < a.len()
        invariant
            i <= a@.len(),
            a@.len() == b@.len(),
            forall|k: int| 0 <= k < i ==> texts(a@)[k] == texts(b@)[k],
        decreases a.len() - i,
    {
        if a[i] != b[i] {
            assert(texts(a@)[i as int] != texts(b@)[i as int]);
            return false;
        }
        i += 1;
    }
    assert(texts(a@) =~= texts(b@));
    true
}

pub fn clone_text(text: &Option<String>) -> (copy: Option<String>)
    ensures
        optional_text(copy) == optional_text(*text),
{
    match text {
        Some(text) => Some(text.clone()),
        None => None,
    }
}

/// Whether an optional text is a given one.
pub fn is_text(text: &Option<String>, expected: &str) -> (yes: bool)
    ensures
        yes == (optional_text(*text) == Some(expected@)),
{
    match text {
        Some(text) => same_text(text.as_str(), expected),
        None => false,
    }
}

/// Whether a list of strings holds a text.
pub fn holds_text(items: &Vec<String>, text: &String) -> (yes: bool)
    ensures
        yes == texts(items@).contains(text@),
{
    let mut i: usize = 0;
    while i < items.len()
        invariant
            i <= items@.len(),
            forall|k: int| 0 <= k < i ==> texts(items@)[k] != text@,
        decreases items.len() - i,
    {
        if items[i] == *text {
            assert(texts(items@)[i as int] == text@);
            return true;
        }
        i += 1;
    }
    assert forall|k: int| 0 <= k < texts(items@).len() implies texts(items@)[k] != text@ by {}
    false
}

} // verus!
