//! How masks format what is put into them.
use crate::mask_pattern::{
    dot_index, emptied, filled, fills, grouped, integer_char, is_digit, is_sign, lemma_dot_index,
    normalized_char, number_masked, number_normalized, number_valid, sign_of, ungrouped, MaskToken,
};
use vstd::prelude::*;

verus! {

// ---------------------------------------------------------------------------
// Patterns

/// What each character of a pattern stands for: a nine takes digits and the
/// dot, a capital A takes letters, a star takes anything, and every other
/// character stands for itself. Places to fill are shown as lines.
pub proof fn law_pattern_characters(p: char, c: char)
    ensures
        p == '9' ==> (MaskToken::named(p).takes(c) <==> ('0' <= c <= '9' || c == '.')),
        p == 'A' ==> (MaskToken::named(p).takes(c) <==> ('a' <= c <= 'z' || 'A' <= c <= 'Z')),
        p == '*' ==> MaskToken::named(p).takes(c),
        p != '9' && p != 'A' && p != '*' ==> (MaskToken::named(p).takes(c) <==> c == p),
        p == '9' || p == 'A' || p == '*' ==> !(MaskToken::named(p) is Sep)
            && MaskToken::named(p).shown() == '_',
        p != '9' && p != 'A' && p != '*' ==> MaskToken::named(p) is Sep
            && MaskToken::named(p).shown() == p,
{
}

/// Formatted text has a character at each place that the place takes, and the
/// separators of the mask where they belong.
pub proof fn law_places_are_filled(tokens: Seq<MaskToken>, text: Seq<char>)
    ensures
        filled(tokens, text).len() <= tokens.len(),
        forall|k: int|
            0 <= k < filled(tokens, text).len() ==> (tokens[k] matches MaskToken::Sep(c)
                ==> filled(tokens, text)[k] == c) && (#[trigger] tokens[k]).takes(
                filled(tokens, text)[k],
            ),
    decreases tokens.len(),
{
    let m = filled(tokens, text);
    if tokens.len() > 0 && text.len() > 0 {
        let rest = if tokens[0].takes(text[0]) {
            text.skip(1)
        } else {
            text
        };
        law_places_are_filled(tokens.skip(1), rest);
        if tokens[0].takes(text[0]) || tokens[0] is Sep {
            assert forall|k: int| 0 <= k < m.len() implies (tokens[k] matches MaskToken::Sep(c)
                ==> m[k] == c) && (#[trigger] tokens[k]).takes(m[k]) by {
                if k > 0 {
                    assert(tokens[k] == tokens.skip(1)[k - 1]);
                    assert(m[k] == filled(tokens.skip(1), rest)[k - 1]);
                }
            }
        }
    }
}

/// Whether a text holds none of the separators of a mask.
pub open spec fn content(tokens: Seq<MaskToken>, text: Seq<char>) -> bool {
    forall|i: int, k: int|
        0 <= i < tokens.len() && 0 <= k < text.len() ==> #[trigger] tokens[i] != MaskToken::Sep(
            #[trigger] text[k],
        )
}

proof fn lemma_emptied_first(tokens: Seq<MaskToken>, text: Seq<char>)
    requires
        tokens.len() > 0,
        text.len() > 0,
    ensures
        emptied(tokens, text) == if tokens[0] is Sep {
            emptied(tokens.skip(1), text.skip(1))
        } else {
            seq![text[0]] + emptied(tokens.skip(1), text.skip(1))
        },
    decreases text.len(),
{
    let rest = text.drop_last();
    if text.len() == 1 {
        assert(rest =~= Seq::empty());
        assert(text.skip(1) =~= Seq::empty());
        assert(emptied(tokens, rest) =~= Seq::empty());
        assert(emptied(tokens, text) =~= if tokens[0] is Sep {
            Seq::<char>::empty()
        } else {
            seq![text[0]]
        });
        assert(seq![text[0]] + Seq::<char>::empty() =~= seq![text[0]]);
    } else {
        lemma_emptied_first(tokens, rest);
        assert(rest.skip(1) =~= text.skip(1).drop_last());
        assert(text.skip(1).last() == text.last());
        let i = text.len() - 1;
        if i < tokens.len() {
            assert(tokens.skip(1)[i - 1] == tokens[i]);
        }
        let tail = emptied(tokens.skip(1), text.skip(1));
        if !(tokens[0] is Sep) {
            assert(emptied(tokens, text) =~= seq![text[0]] + tail);
        } else {
            assert(emptied(tokens, text) =~= tail);
        }
    }
}

/// A text that a mask takes, and that holds none of its separators, can be
/// had back from the formatted text.
pub proof fn law_mask_keeps_content(tokens: Seq<MaskToken>, text: Seq<char>)
    requires
        fills(tokens, text),
        content(tokens, text),
    ensures
        emptied(tokens, filled(tokens, text)) == text,
    decreases tokens.len(),
{
    let m = filled(tokens, text);
    if text.len() == 0 {
        assert(m =~= Seq::empty());
        assert(emptied(tokens, m) =~= text);
    } else {
        let rest = if tokens[0].takes(text[0]) {
            text.skip(1)
        } else {
            text
        };
        assert forall|i: int, k: int|
            0 <= i < tokens.skip(1).len() && 0 <= k < rest.len() implies #[trigger] tokens.skip(
            1,
        )[i] != MaskToken::Sep(#[trigger] rest[k]) by {
            assert(tokens.skip(1)[i] == tokens[i + 1]);
            if tokens[0].takes(text[0]) {
                assert(rest[k] == text[k + 1]);
            }
        }
        law_mask_keeps_content(tokens.skip(1), rest);
        assert(tokens[0] != MaskToken::Sep(text[0]));
        lemma_emptied_first(tokens, m);
        assert(m.skip(1) =~= filled(tokens.skip(1), rest));
        if tokens[0].takes(text[0]) {
            assert(seq![text[0]] + text.skip(1) =~= text);
        }
    }
}

// ---------------------------------------------------------------------------
// Numbers

/// Full-width digits, signs, commas and points are read as ASCII, and so is
/// the ideographic full stop. Everything else stays as it is.
pub proof fn law_numbers_are_normalized(t: Seq<char>, k: int)
    requires
        0 <= k < t.len(),
    ensures
        number_normalized(t).len() == t.len(),
        ({
            let c = t[k];
            let n = number_normalized(t)[k];
            &&& '\u{ff10}' <= c <= '\u{ff19}' ==> n as u32 - '0' as u32 == c as u32
                - '\u{ff10}' as u32
            &&& c == '\u{ff0b}' ==> n == '+'
            &&& c == '\u{ff0d}' ==> n == '-'
            &&& c == '\u{ff0c}' ==> n == ','
            &&& c == '\u{3002}' || c == '\u{ff0e}' ==> n == '.'
            &&& !('\u{ff10}' <= c <= '\u{ff19}') && c != '\u{ff0b}' && c != '\u{ff0d}' && c
                != '\u{ff0c}' && c != '\u{3002}' && c != '\u{ff0e}' ==> n == c
        }),
{
    assert(number_normalized(t)[k] == normalized_char(t[k]));
}

/// Whether all of a text is digits.
pub open spec fn all_digits(s: Seq<char>) -> bool {
    forall|k: int| 0 <= k < s.len() ==> is_digit(#[trigger] s[k])
}

/// A number is formatted with its digits in groups, behind its sign; its
/// fraction has no groups, and at most as many digits as it may.
pub proof fn law_numbers_are_grouped(
    sign: Seq<char>,
    digits: Seq<char>,
    frac: Seq<char>,
    separator: Option<char>,
    fraction: Option<usize>,
)
    requires
        sign.len() == 0 || (sign.len() == 1 && is_sign(sign[0])),
        all_digits(digits),
        all_digits(frac),
        separator matches Some(c) ==> !is_digit(c) && !is_sign(c) && c != '.',
    ensures
        number_masked(sign + digits, separator, fraction) == sign + grouped(digits, separator),
        number_masked(sign + digits + seq!['.'] + frac, separator, fraction) == sign + grouped(
            digits,
            separator,
        ) + seq!['.'] + match fraction {
            Some(n) => if frac.len() <= n {
                frac
            } else {
                frac.take(n as int)
            },
            None => frac,
        },
        separator is None ==> grouped(digits, separator) == digits,
{
    lemma_no_groups(sign + digits, separator);
    lemma_no_groups(sign + digits + seq!['.'] + frac, separator);
    let whole = sign + digits;
    let long = whole + seq!['.'] + frac;
    assert forall|i: int| 0 <= i < whole.len() implies whole[i] != '.' by {
        if i >= sign.len() {
            assert(is_digit(digits[i - sign.len()]));
        }
    }
    lemma_dot_index(whole);
    lemma_dot_index(long);
    assert(dot_index(whole) == whole.len());
    assert(dot_index(long) == whole.len()) by {
        assert(long[whole.len() as int] == '.');
        assert forall|i: int| 0 <= i < whole.len() implies long[i] != '.' by {
            assert(long[i] == whole[i]);
        }
    }
    assert(whole.take(whole.len() as int) =~= whole);
    assert(long.take(whole.len() as int) =~= whole);
    assert(long.skip(whole.len() as int + 1) =~= frac);
    assert(sign_of(whole) =~= sign) by {
        if sign.len() == 0 && digits.len() > 0 {
            assert(is_digit(digits[0]));
            assert(whole[0] == digits[0]);
        }
    }
    assert(whole.skip(sign.len() as int) =~= digits);
    let int_part = sign + grouped(digits, separator);
    assert(int_part.push('.') =~= int_part + seq!['.']);
}

proof fn lemma_no_groups(s: Seq<char>, separator: Option<char>)
    ensures
        (separator matches Some(c) ==> !s.contains(c)) ==> ungrouped(s, separator) == s,
{
    if let Some(c) = separator {
        crate::mask_pattern::lemma_without_free(s, c);
    }
}

/// A number has digits and separators, a sign at most at its start, and at
/// most one point, behind which there are digits alone.
pub proof fn law_numbers_are_valid(s: Seq<char>, separator: Option<char>, k: int)
    requires
        0 <= k < s.len(),
        separator matches Some(c) ==> c != '.',
    ensures
        all_digits(s) ==> number_valid(s, separator),
        number_valid(s, separator) ==> {
            &&& is_digit(s[k]) || is_sign(s[k]) || s[k] == '.' || separator == Some(s[k])
            &&& is_sign(s[k]) && separator != Some(s[k]) ==> k == 0
            &&& s[k] == '.' ==> forall|j: int| k < j < s.len() ==> is_digit(#[trigger] s[j])
        },
{
    lemma_dot_index(s);
    let d = dot_index(s);
    if all_digits(s) {
        assert(d == s.len()) by {
            if d < s.len() {
                assert(is_digit(s[d]));
            }
        }
        assert forall|i: int| 0 <= i < d implies integer_char(#[trigger] s[i], i, separator) by {
            assert(is_digit(s[i]));
        }
    }
    if number_valid(s, separator) {
        if k < d {
            assert(integer_char(s[k], k, separator));
        } else if k > d {
            assert(is_digit(s[k]));
        }
    }
}

} // verus!
