//! Text: decimal numerals, padding, and joining, over sequences of characters.

use vstd::prelude::*;
use vstd::string::*;
use vstd::utf8::*;

verus! {

/// `String::push` appends the given character to the end of the string.
pub assume_specification[ String::push ](s: &mut String, c: char)
    ensures
        final(s)@ == old(s)@.push(c),
;

/// The character of a decimal digit.
pub open spec fn digit_char(d: nat) -> char {
    (d + 48) as char
}

/// The decimal numeral of `n`, without leading zeros.
pub open spec fn decimal(n: nat) -> Seq<char>
    decreases n,
{
    if n < 10 {
        seq![digit_char(n)]
    } else {
        decimal(n / 10).push(digit_char(n % 10))
    }
}

/// The decimal numeral of `n` is made of digits, has no leading zero, and its
/// digits, each worth ten times those behind it, come to `n`.
pub proof fn lemma_decimal_digits(n: nat)
    ensures
        decimal(n).len() >= 1,
        forall|i: int| 0 <= i < decimal(n).len() ==> '0' <= #[trigger] decimal(n)[i] <= '9',
        decimal(n).len() > 1 ==> decimal(n)[0] != '0',
        decimal(n).fold_left(0int, |v: int, c: char| v * 10 + (c as int - '0' as int)) == n,
    decreases n,
{
    let f = |v: int, c: char| v * 10 + (c as int - '0' as int);
    reveal_with_fuel(Seq::fold_left, 2);
    if n < 10 {
        assert(digit_char(n) as nat == n + 48);
        assert(decimal(n).drop_last() =~= seq![]);
    } else {
        lemma_decimal_digits(n / 10);
        assert(digit_char(n % 10) as nat == n % 10 + 48);
        assert(decimal(n).drop_last() =~= decimal(n / 10));
        assert(decimal(n)[0] == decimal(n / 10)[0]);
        if decimal(n / 10).len() == 1 {
            assert(decimal(n / 10).drop_last() =~= seq![]);
            assert(decimal(n / 10).fold_left(0int, f) == decimal(n / 10)[0] as int - 48);
        }
    }
}

/// The decimal numeral of `n`.
pub fn decimal_text(n: usize) -> (text: String)
    ensures
        text@ == decimal(n as nat),
    decreases n,
{
    let mut text = if n < 10 {
        String::new()
    } else {
        decimal_text(n / 10)
    };
    let digit: u8 = (n % 10) as u8;
    text.push((digit + 48) as char);
    text
}

/// `count` spaces.
pub open spec fn spaces(count: nat) -> Seq<char> {
    Seq::new(count, |i: int| ' ')
}

/// `s` with spaces before it, so that it has at least `width` characters.
pub open spec fn padded(s: Seq<char>, width: nat) -> Seq<char> {
    if s.len() >= width {
        s
    } else {
        spaces((width - s.len()) as nat) + s
    }
}

/// A padded text is as wide as it has to be, ends with the text, and holds
/// nothing but spaces before it.
pub proof fn lemma_padded(s: Seq<char>, width: nat)
    ensures
        padded(s, width).len() == if s.len() < width {
            width
        } else {
            s.len()
        },
        padded(s, width).skip(padded(s, width).len() - s.len()) == s,
        forall|i: int|
            0 <= i < padded(s, width).len() - s.len() ==> #[trigger] padded(s, width)[i] == ' ',
{
    assert(padded(s, width).skip(padded(s, width).len() - s.len()) =~= s);
}

/// `s` moved to the right of a field of `width` characters.
pub fn pad_left(s: &str, width: usize) -> (text: String)
    ensures
        text@ == padded(s@, width as nat),
{
    let mut text = String::new();
    let chars: usize = s.unicode_len();
    if chars < width {
        let missing: usize = width - chars;
        let mut i: usize = 0;
        while i < missing
            invariant
                i <= missing,
                text@ == spaces(i as nat),
            decreases missing - i,
        {
            text.push(' ');
            i += 1;
            assert(text@ =~= spaces(i as nat));
        }
    }
    text.append(s);
    assert(text@ =~= padded(s@, width as nat));
    text
}

/// The number of bytes that `s` takes in UTF-8.
pub open spec fn byte_len(s: Seq<char>) -> nat {
    encode_utf8(s).len()
}

/// The number of bytes of `s`.
pub fn byte_length(s: &str) -> (len: usize)
    ensures
        len == byte_len(s@),
        len == encode_utf8(s@).len(),
{
    s.as_bytes().len()
}

/// A text has at least as many bytes as characters.
pub proof fn lemma_byte_len(s: Seq<char>)
    ensures
        byte_len(s) == encode_utf8(s).len(),
        s.len() <= byte_len(s),
    decreases s.len(),
{
    if s.len() > 0 {
        lemma_byte_len(s.drop_first());
        char_is_scalar(s[0]);
    }
}

/// The characters of each string.
pub open spec fn texts(strings: Seq<String>) -> Seq<Seq<char>> {
    Seq::new(strings.len(), |i: int| strings[i]@)
}

/// The first `n` of `parts`, with `sep` between neighbours.
pub open spec fn joined_first(parts: Seq<Seq<char>>, sep: Seq<char>, n: nat) -> Seq<char>
    decreases n,
{
    if n == 0 {
        seq![]
    } else if n == 1 {
        parts[0]
    } else {
        joined_first(parts, sep, (n - 1) as nat) + sep + parts[n - 1]
    }
}

/// All of `parts`, with `sep` between neighbours.
pub open spec fn joined(parts: Seq<Seq<char>>, sep: Seq<char>) -> Seq<char> {
    joined_first(parts, sep, parts.len())
}

/// What is joined holds every part, in order, with the separator before each
/// but the first, and nothing else.
pub proof fn lemma_joined(parts: Seq<Seq<char>>, sep: Seq<char>)
    ensures
        joined(parts, sep) == parts.map(
            |i: int, part: Seq<char>|
                if i == 0 {
                    part
                } else {
                    sep + part
                },
        ).flatten(),
{
    lemma_joined_first(parts, sep, parts.len());
    assert(parts.take(parts.len() as int) =~= parts);
}

proof fn lemma_joined_first(parts: Seq<Seq<char>>, sep: Seq<char>, n: nat)
    requires
        n <= parts.len(),
    ensures
        joined_first(parts, sep, n) == parts.take(n as int).map(
            |i: int, part: Seq<char>|
                if i == 0 {
                    part
                } else {
                    sep + part
                },
        ).flatten(),
    decreases n,
{
    let f = |i: int, part: Seq<char>|
        if i == 0 {
            part
        } else {
            sep + part
        };
    let all = parts.take(n as int).map(f);
    if n == 0 {
        assert(all =~= seq![]);
        reveal_with_fuel(Seq::flatten, 1);
    } else {
        lemma_joined_first(parts, sep, (n - 1) as nat);
        let before = parts.take(n - 1).map(f);
        let next = f(n - 1, parts[n - 1]);
        before.lemma_flatten_push(next);
        assert(all =~= before.push(next));
        if n == 1 {
            assert(before =~= seq![]);
            reveal_with_fuel(Seq::flatten, 1);
            assert(before.flatten() + next =~= next);
        } else {
            assert(joined_first(parts, sep, n) =~= before.flatten() + next);
        }
    }
}

/// The texts are the characters of the strings, one for one.
pub proof fn lemma_texts(strings: Seq<String>, i: int)
    requires
        0 <= i < strings.len(),
    ensures
        texts(strings).len() == strings.len(),
        texts(strings)[i] == strings[i]@,
{
}

/// `parts` in one string, with `sep` between neighbours.
pub fn join(parts: &Vec<String>, sep: &str) -> (text: String)
    ensures
        text@ == joined(texts(parts@), sep@),
{
    let mut text = String::new();
    let mut i: usize = 0;
    while i < parts.len()
        invariant
            i <= parts@.len(),
            text@ == joined_first(texts(parts@), sep@, i as nat),
        decreases parts@.len() - i,
    {
        if i != 0 {
            text.append(sep);
        }
        text.append(parts[i].as_str());
        i += 1;
        assert(text@ =~= joined_first(texts(parts@), sep@, i as nat));
    }
    text
}

/// The characters of a string, one by one.
pub fn chars_of(s: &str) -> (chars: Vec<char>)
    ensures
        chars@ == s@,
{
    broadcast use axiom_spec_iter;

    let mut chars: Vec<char> = Vec::new();
    for c in it: s.chars()
        invariant
            it.seq() == s@,
            chars@ == s@.take(it.index() as int),
    {
        chars.push(c);
        assert(chars@ =~= s@.take(it.index() + 1));
    }
    assert(s@.take(s@.len() as int) =~= s@);
    chars
}

} // verus!
