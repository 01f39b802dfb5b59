use vstd::prelude::*;
use vstd::string::*;

verus! {

/// What `str::to_lowercase` returns for a text: its lowercase form under the Unicode
/// `Lowercase` property.
pub uninterp spec fn unicode_lowercase(text: Seq<char>) -> Seq<char>;

/// Calls `str::to_lowercase`; the result depends on the text alone and is not
/// described further here.
#[verifier::external_body]
pub(crate) fn to_lowercase(text: &str) -> (lower: String)
    ensures
        lower@ == unicode_lowercase(text@),
{
    text.to_lowercase()
}

/// `needle` occurs in `hay` starting at position `i`.
pub open spec fn occurs_at(hay: Seq<char>, needle: Seq<char>, i: int) -> bool {
    0 <= i && i + needle.len() <= hay.len() && hay.subrange(i, i + needle.len()) == needle
}

/// `needle` occurs as a contiguous part of `hay` (the empty text occurs in every text).
pub open spec fn contains_text(hay: Seq<char>, needle: Seq<char>) -> bool {
    exists|i: int| #[trigger] occurs_at(hay, needle, i)
}

/// The characters of a text.
pub(crate) fn chars_of(text: &str) -> (chars: Vec<char>)
    ensures
        chars@ == text@,
{
    let n = text.unicode_len();
    let mut chars: Vec<char> = Vec::new();
    for i in 0..n
        invariant
            n == text@.len(),
            chars@ == text@.take(i as int),
    {
        chars.push(text.get_char(i));
        assert(chars@ =~= text@.take(i + 1));
    }
    assert(chars@ =~= text@);
    chars
}

/// Whether `needle` occurs in `hay` at position `start`.
fn occurs_at_exec(hay: &Vec<char>, needle: &Vec<char>, start: usize) -> (found: bool)
    requires
        start + needle.len() <= hay.len(),
    ensures
        found == occurs_at(hay@, needle@, start as int),
{
    let n = needle.len();
    for k in 0..n
        invariant
            n == needle.len(),
            start + n <= hay.len(),
            forall|m: int| 0 <= m < k ==> hay@[start + m] == needle@[m],
    {
        if hay[start + k] != needle[k] {
            assert(hay@.subrange(start as int, start + n)[k as int] != needle@[k as int]);
            return false;
        }
    }
    assert(hay@.subrange(start as int, start + n) =~= needle@);
    true
}

/// Whether `needle` occurs as a contiguous part of `hay`.
pub(crate) fn contains_chars(hay: &Vec<char>, needle: &Vec<char>) -> (found: bool)
    ensures
        found == contains_text(hay@, needle@),
{
    if needle.len() > hay.len() {
        assert forall|i: int| !occurs_at(hay@, needle@, i) by {}
        return false;
    }
    let last = hay.len() - needle.len();
    let mut i: usize = 0;
    loop
        invariant
            i <= last,
            last + needle.len() == hay.len(),
            forall|j: int| 0 <= j < i ==> !#[trigger] occurs_at(hay@, needle@, j),
        decreases last - i,
    {
        if occurs_at_exec(hay, needle, i) {
            return true;
        }
        if i == last {
            assert forall|j: int| !#[trigger] occurs_at(hay@, needle@, j) by {
                if 0 <= j < i + 1 && j != i {
                }
            }
            return false;
        }
        i = i + 1;
    }
}

/// Whether the text `needle` occurs in the text `hay`.
pub(crate) fn text_contains(hay: &str, needle: &str) -> (found: bool)
    ensures
        found == contains_text(hay@, needle@),
{
    let h = chars_of(hay);
    let n = chars_of(needle);
    contains_chars(&h, &n)
}

/// Whether `item` equals some entry of `items`.
pub(crate) fn lists_exec(items: &Vec<String>, item: &String) -> (found: bool)
    ensures
        found == crate::card::lists(items@, item@),
{
    let n = items.len();
    for k in 0..n
        invariant
            n == items.len(),
            forall|m: int| 0 <= m < k ==> items@[m]@ != item@,
    {
        if items[k] == *item {
            assert(items@[k as int]@ == item@);
            return true;
        }
    }
    false
}

/// The decimal digit character for a value below 10.
pub open spec fn decimal_digit(d: int) -> char {
    (48 + d) as char
}

/// Decimal text of a natural number, without leading zeros.
pub open spec fn decimal(n: nat) -> Seq<char>
    decreases n,
{
    if n < 10 {
        seq![decimal_digit(n as int)]
    } else {
        decimal(n / 10) + seq![decimal_digit((n % 10) as int)]
    }
}

fn digit_text(d: u64) -> (text: &'static str)
    requires
        d < 10,
    ensures
        text@ == seq![decimal_digit(d as int)],
{
    proof {
        reveal_strlit("0");
        reveal_strlit("1");
        reveal_strlit("2");
        reveal_strlit("3");
        reveal_strlit("4");
        reveal_strlit("5");
        reveal_strlit("6");
        reveal_strlit("7");
        reveal_strlit("8");
        reveal_strlit("9");
    }
    match d {
        0 => "0",
        1 => "1",
        2 => "2",
        3 => "3",
        4 => "4",
        5 => "5",
        6 => "6",
        7 => "7",
        8 => "8",
        _ => "9",
    }
}

/// Decimal text of an unsigned integer, as `Display` writes it.
pub(crate) fn decimal_string(n: u64) -> (text: String)
    ensures
        text@ == decimal(n as nat),
    decreases n,
{
    if n < 10 {
        String::from_str(digit_text(n))
    } else {
        let mut text = decimal_string(n / 10);
        text.append(digit_text(n % 10));
        text
    }
}

} // verus!
