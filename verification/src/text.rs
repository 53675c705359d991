//! Texts, character by character.

use vstd::prelude::*;

verus! {

/// Whether two texts have the same characters.
pub fn same_text(a: &str, b: &str) -> (same: bool)
    ensures
        same == (a@ == b@),
{
    a.to_owned() == b.to_owned()
}

/// The characters of a text.
pub fn chars_of(s: &str) -> (chars: Vec<char>)
    ensures
        chars@ == s@,
{
    let mut chars: Vec<char> = Vec::new();
    for c in it: s.chars()
        invariant
            it.seq() == s@,
            chars@ == s@.take(it.index() as int),
    {
        chars.push(c);
        assert(s@.take(it.index() + 1) =~= s@.take(it.index() as int).push(c));
    }
    assert(s@.take(s@.len() as int) =~= s@);
    chars
}

/// Whether `part` stands in `chars` from place `start` to before place `end`.
pub fn same_chars(chars: &Vec<char>, start: usize, end: usize, part: &Vec<char>) -> (same: bool)
    requires
        start <= end <= chars@.len(),
    ensures
        same == (chars@.subrange(start as int, end as int) == part@),
{
    if end - start != part.len() {
        return false;
    }
    let mut i: usize = 0;
    while i < part.len()
        invariant
            i <= part@.len(),
            start <= end <= chars@.len(),
            end - start == part@.len(),
            forall|k: int| 0 <= k < i ==> #[trigger] part@[k] == chars@[start + k],
        decreases part@.len() - i,
    {
        if chars[start + i] != part[i] {
            assert(chars@.subrange(start as int, end as int)[i as int] != part@[i as int]);
            return false;
        }
        i += 1;
    }
    assert(chars@.subrange(start as int, end as int) =~= part@);
    true
}

/// Whether a character is ASCII whitespace: a space, tab, line feed, form feed or carriage
/// return.
pub open spec fn is_ascii_gap(c: char) -> bool {
    c == ' ' || c == '\t' || c == '\n' || c == '\x0C' || c == '\r'
}

/// Whether the characters from place `i` to before place `j` are a word: one or more, none
/// of them a gap, with a gap or an end of the text on either side.
pub open spec fn word_at(text: Seq<char>, i: int, j: int) -> bool {
    &&& 0 <= i < j <= text.len()
    &&& forall|k: int| i <= k < j ==> !is_ascii_gap(#[trigger] text[k])
    &&& i == 0 || is_ascii_gap(text[i - 1])
    &&& j == text.len() || is_ascii_gap(text[j])
}

/// Whether `want` is one of the words of a text.
pub open spec fn has_word(text: Seq<char>, want: Seq<char>) -> bool {
    exists|i: int, j: int| #[trigger] word_at(text, i, j) && text.subrange(i, j) == want
}

/// Whether `want` is one of the whitespace-separated words of `text`.
pub fn contains_word(text: &str, want: &str) -> (found: bool)
    ensures
        found == has_word(text@, want@),
{
    let chars = chars_of(text);
    let part = chars_of(want);
    let mut start: usize = 0;
    let mut i: usize = 0;
    while i < chars.len()
        invariant
            chars@ == text@,
            part@ == want@,
            start <= i <= chars@.len(),
            forall|k: int| start <= k < i ==> !is_ascii_gap(#[trigger] chars@[k]),
            start == 0 || is_ascii_gap(chars@[start - 1]),
            forall|a: int, b: int|
                #[trigger] word_at(chars@, a, b) && b < start ==> chars@.subrange(a, b) != part@,
        decreases chars@.len() - i,
    {
        let c = chars[i];
        if c == ' ' || c == '\t' || c == '\n' || c == '\x0C' || c == '\r' {
            if start < i && same_chars(&chars, start, i, &part) {
                assert(word_at(text@, start as int, i as int));
                return true;
            }
            assert forall|a: int, b: int| #[trigger] word_at(chars@, a, b) && b < i
                + 1 implies chars@.subrange(a, b) != part@ by {
                if b >= start {
                    lemma_same_word(chars@, start as int, i as int, a, b);
                }
            }
            start = i + 1;
        }
        i += 1;
    }
    if start < i && same_chars(&chars, start, i, &part) {
        assert(word_at(text@, start as int, i as int));
        return true;
    }
    assert forall|a: int, b: int| #[trigger] word_at(text@, a, b) implies text@.subrange(a, b)
        != want@ by {
        if b >= start {
            lemma_same_word(chars@, start as int, i as int, a, b);
        }
    }
    false
}

/// A word that ends within a stretch without gaps is that stretch.
proof fn lemma_same_word(text: Seq<char>, start: int, end: int, a: int, b: int)
    requires
        0 <= start <= end <= text.len(),
        forall|k: int| start <= k < end ==> !is_ascii_gap(#[trigger] text[k]),
        start == 0 || is_ascii_gap(text[start - 1]),
        word_at(text, a, b),
        start <= b <= end,
    ensures
        end == text.len() || is_ascii_gap(text[end]) ==> a == start && b == end && start < end,
{
    if b < end {
        assert(!is_ascii_gap(text[b]));
    }
    if a < start {
        assert(a <= start - 1 < b);
        assert(is_ascii_gap(text[start - 1]));
    }
    if a > start {
        assert(!is_ascii_gap(text[a - 1]));
    }
}

/// The hexadecimal digit for a number below sixteen.
pub open spec fn hex_char(n: int) -> char {
    if n < 10 {
        ('0' as int + n) as char
    } else {
        ('a' as int + n - 10) as char
    }
}

/// A number in lower-case hexadecimal, without leading zeros.
pub open spec fn hex_digits(n: nat) -> Seq<char>
    decreases n,
{
    if n < 16 {
        seq![hex_char(n as int)]
    } else {
        hex_digits(n / 16).push(hex_char((n % 16) as int))
    }
}

/// The hexadecimal digit for a number below sixteen.
fn hex_digit(n: u32) -> (digit: &'static str)
    requires
        n < 16,
    ensures
        digit@ == seq![hex_char(n as int)],
{
    let digit = match n {
        0 => {
            proof {
                reveal_strlit("0");
            }
            "0"
        },
        1 => {
            proof {
                reveal_strlit("1");
            }
            "1"
        },
        2 => {
            proof {
                reveal_strlit("2");
            }
            "2"
        },
        3 => {
            proof {
                reveal_strlit("3");
            }
            "3"
        },
        4 => {
            proof {
                reveal_strlit("4");
            }
            "4"
        },
        5 => {
            proof {
                reveal_strlit("5");
            }
            "5"
        },
        6 => {
            proof {
                reveal_strlit("6");
            }
            "6"
        },
        7 => {
            proof {
                reveal_strlit("7");
            }
            "7"
        },
        8 => {
            proof {
                reveal_strlit("8");
            }
            "8"
        },
        9 => {
            proof {
                reveal_strlit("9");
            }
            "9"
        },
        10 => {
            proof {
                reveal_strlit("a");
            }
            "a"
        },
        11 => {
            proof {
                reveal_strlit("b");
            }
            "b"
        },
        12 => {
            proof {
                reveal_strlit("c");
            }
            "c"
        },
        13 => {
            proof {
                reveal_strlit("d");
            }
            "d"
        },
        14 => {
            proof {
                reveal_strlit("e");
            }
            "e"
        },
        _ => {
            proof {
                reveal_strlit("f");
            }
            "f"
        },
    };
    assert(digit@ =~= seq![hex_char(n as int)]);
    digit
}

/// Writes a number in lower-case hexadecimal.
pub fn hex(n: u32) -> (text: String)
    ensures
        text@ == hex_digits(n as nat),
    decreases n,
{
    if n < 16 {
        return hex_digit(n).to_owned();
    }
    let mut text = hex(n / 16);
    text.append(hex_digit(n % 16));
    assert(text@ =~= hex_digits(n as nat));
    text
}

/// Each of the five gaps parts words: a text with a gap in it has the words before the gap and
/// the words after it, and no others.
pub proof fn law_gaps_part_words(a: Seq<char>, gap: char, b: Seq<char>, want: Seq<char>)
    requires
        gap == ' ' || gap == '\t' || gap == '\n' || gap == '\x0C' || gap == '\r',
    ensures
        has_word(a.push(gap) + b, want) <==> has_word(a, want) || has_word(b, want),
{
    let text = a.push(gap) + b;
    if has_word(text, want) {
        let (i, j) = choose|i: int, j: int| #[trigger]
            word_at(text, i, j) && text.subrange(i, j) == want;
        lemma_word_beside_a_gap(a, gap, b, i, j);
    }
    if has_word(a, want) {
        let (i, j) = choose|i: int, j: int| #[trigger]
            word_at(a, i, j) && a.subrange(i, j) == want;
        lemma_word_before_a_gap(a, gap, b, i, j);
    }
    if has_word(b, want) {
        let (i, j) = choose|i: int, j: int| #[trigger]
            word_at(b, i, j) && b.subrange(i, j) == want;
        lemma_word_after_a_gap(a, gap, b, i, j);
    }
}

/// A text without any of the five gaps is one word, itself, or none where it is empty.
pub proof fn law_text_without_gaps_is_a_word(text: Seq<char>, want: Seq<char>)
    requires
        forall|k: int|
            0 <= k < text.len() ==> (#[trigger] text[k]) != ' ' && text[k] != '\t' && text[k]
                != '\n' && text[k] != '\x0C' && text[k] != '\r',
    ensures
        has_word(text, want) <==> text.len() > 0 && want == text,
{
    assert forall|i: int, j: int| #[trigger] word_at(text, i, j) implies i == 0 && j
        == text.len() by {}
    assert(text.subrange(0, text.len() as int) =~= text);
    if text.len() > 0 {
        assert(word_at(text, 0, text.len() as int));
    }
}

proof fn lemma_word_beside_a_gap(a: Seq<char>, gap: char, b: Seq<char>, i: int, j: int)
    requires
        is_ascii_gap(gap),
        word_at(a.push(gap) + b, i, j),
    ensures
        has_word(a, (a.push(gap) + b).subrange(i, j)) || has_word(
            b,
            (a.push(gap) + b).subrange(i, j),
        ),
{
    let text = a.push(gap) + b;
    let g = a.len() as int;
    assert(text[g] == gap);
    if j <= g {
        assert forall|k: int| i <= k < j implies !is_ascii_gap(#[trigger] a[k]) by {
            assert(text[k] == a[k]);
        }
        if i > 0 {
            assert(text[i - 1] == a[i - 1]);
        }
        if j < g {
            assert(text[j] == a[j]);
        }
        assert(word_at(a, i, j));
        assert(a.subrange(i, j) =~= text.subrange(i, j));
    } else {
        assert(i > g) by {
            if i <= g {
                assert(!is_ascii_gap(text[g]));
            }
        }
        let p = i - g - 1;
        let q = j - g - 1;
        assert forall|k: int| p <= k < q implies !is_ascii_gap(#[trigger] b[k]) by {
            assert(text[k + g + 1] == b[k]);
        }
        if p > 0 {
            assert(text[i - 1] == b[p - 1]);
        }
        if q < b.len() {
            assert(text[j] == b[q]);
        }
        assert(word_at(b, p, q));
        assert(b.subrange(p, q) =~= text.subrange(i, j));
    }
}

proof fn lemma_word_before_a_gap(a: Seq<char>, gap: char, b: Seq<char>, i: int, j: int)
    requires
        is_ascii_gap(gap),
        word_at(a, i, j),
    ensures
        has_word(a.push(gap) + b, a.subrange(i, j)),
{
    let text = a.push(gap) + b;
    assert forall|k: int| i <= k < j implies !is_ascii_gap(#[trigger] text[k]) by {
        assert(text[k] == a[k]);
    }
    if i > 0 {
        assert(text[i - 1] == a[i - 1]);
    }
    if j < a.len() {
        assert(text[j] == a[j]);
    } else {
        assert(text[j] == gap);
    }
    assert(word_at(text, i, j));
    assert(text.subrange(i, j) =~= a.subrange(i, j));
}

proof fn lemma_word_after_a_gap(a: Seq<char>, gap: char, b: Seq<char>, p: int, q: int)
    requires
        is_ascii_gap(gap),
        word_at(b, p, q),
    ensures
        has_word(a.push(gap) + b, b.subrange(p, q)),
{
    let text = a.push(gap) + b;
    let i = p + a.len() + 1;
    let j = q + a.len() + 1;
    assert forall|k: int| i <= k < j implies !is_ascii_gap(#[trigger] text[k]) by {
        assert(text[k] == b[k - a.len() - 1]);
    }
    if p > 0 {
        assert(text[i - 1] == b[p - 1]);
    } else {
        assert(text[i - 1] == gap);
    }
    if q < b.len() {
        assert(text[j] == b[q]);
    }
    assert(word_at(text, i, j));
    assert(text.subrange(i, j) =~= b.subrange(p, q));
}

/// The number that lower-case hexadecimal digits stand for.
pub open spec fn hex_value(digits: Seq<char>) -> int
    decreases digits.len(),
{
    if digits.len() == 0 {
        0
    } else {
        16 * hex_value(digits.drop_last()) + if digits.last() <= '9' {
            digits.last() as int - '0' as int
        } else {
            digits.last() as int - 'a' as int + 10
        }
    }
}

/// The digits of a number stand for it, are digits or lower-case letters up to `f`, and have no
/// zero in front.
pub proof fn law_hex_digits_stand_for_the_number(n: nat)
    ensures
        hex_value(hex_digits(n)) == n,
        hex_digits(n).len() > 0,
        n < 16 <==> hex_digits(n).len() == 1,
        hex_digits(n).len() > 1 ==> hex_digits(n)[0] != '0',
        forall|i: int|
            0 <= i < hex_digits(n).len() ==> '0' <= #[trigger] hex_digits(n)[i] <= '9' || 'a'
                <= hex_digits(n)[i] <= 'f',
    decreases n,
{
    let all = hex_digits(n);
    if n < 16 {
        assert(all.drop_last() =~= Seq::empty());
        assert(hex_value(all.drop_last()) == 0);
    } else {
        law_hex_digits_stand_for_the_number(n / 16);
        assert(all.drop_last() =~= hex_digits(n / 16));
        if n / 16 < 16 {
            let d = (n / 16) as int;
            assert(hex_digits(n / 16)[0] == hex_char(d));
            assert(hex_char(d) as int != '0' as int);
        }
        assert(all[0] == hex_digits(n / 16)[0]);
    }
}

} // verus!
