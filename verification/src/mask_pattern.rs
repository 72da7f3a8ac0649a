//! Masks that format the text of a single-line input.
use crate::strings::{str_chars, string_of};
use crate::text::{byte_len, utf16_len};
use vstd::prelude::*;

verus! {

/// The character that a password mask shows in place of each `char`.
pub const MASK_CHAR: char = '\u{2022}';

/// One position of a mask.
#[derive(Clone, Copy, PartialEq, Eq, Structural, Debug)]
pub enum MaskToken {
    /// A digit or a dot.
    Digit,
    /// An ASCII letter.
    Letter,
    /// Any `char`.
    Any,
    /// A `char` that the mask puts in itself.
    Sep(char),
}

/// How the text of an input is formatted.
pub enum MaskPattern {
    /// The text is left alone.
    Plain,
    Pattern { tokens: Vec<MaskToken> },
    Number { separator: Option<char>, fraction: Option<usize> },
}

pub enum MaskView {
    Plain,
    Pattern { tokens: Seq<MaskToken> },
    Number { separator: Option<char>, fraction: Option<usize> },
}

impl View for MaskPattern {
    type V = MaskView;

    open spec fn view(&self) -> MaskView {
        match *self {
            MaskPattern::Plain => MaskView::Plain,
            MaskPattern::Pattern { tokens } => MaskView::Pattern { tokens: tokens@ },
            MaskPattern::Number { separator, fraction } => MaskView::Number { separator, fraction },
        }
    }
}

pub open spec fn is_digit(c: char) -> bool {
    '0' <= c <= '9'
}

pub open spec fn is_sign(c: char) -> bool {
    c == '+' || c == '-'
}

impl MaskToken {
    /// Whether the position takes `c`.
    pub open spec fn takes(self, c: char) -> bool {
        match self {
            MaskToken::Digit => is_digit(c) || c == '.',
            MaskToken::Letter => 'a' <= c <= 'z' || 'A' <= c <= 'Z',
            MaskToken::Any => true,
            MaskToken::Sep(sep) => c == sep,
        }
    }

    pub fn accepts(&self, c: char) -> (r: bool)
        ensures
            r == self.takes(c),
    {
        match *self {
            MaskToken::Digit => ('0' <= c && c <= '9') || c == '.',
            MaskToken::Letter => ('a' <= c && c <= 'z') || ('A' <= c && c <= 'Z'),
            MaskToken::Any => true,
            MaskToken::Sep(sep) => c == sep,
        }
    }

    /// What the position shows while it is empty.
    pub open spec fn shown(self) -> char {
        match self {
            MaskToken::Sep(sep) => sep,
            _ => '_',
        }
    }

    /// The position that a `char` of a pattern stands for.
    pub open spec fn named(c: char) -> MaskToken {
        if c == '9' {
            MaskToken::Digit
        } else if c == 'A' {
            MaskToken::Letter
        } else if c == '*' {
            MaskToken::Any
        } else {
            MaskToken::Sep(c)
        }
    }
}

/// `text` laid out over `tokens`: separators are put in as long as there is
/// text left to place, and the rest is cut at the first `char` that its
/// position does not take.
pub open spec fn filled(tokens: Seq<MaskToken>, text: Seq<char>) -> Seq<char>
    decreases tokens.len(),
{
    if tokens.len() == 0 || text.len() == 0 {
        Seq::empty()
    } else if tokens[0].takes(text[0]) {
        seq![text[0]] + filled(tokens.skip(1), text.skip(1))
    } else if let MaskToken::Sep(sep) = tokens[0] {
        seq![sep] + filled(tokens.skip(1), text)
    } else {
        Seq::empty()
    }
}

/// Whether all of `text` can be laid out over `tokens`.
pub open spec fn fills(tokens: Seq<MaskToken>, text: Seq<char>) -> bool
    decreases tokens.len(),
{
    if text.len() == 0 {
        true
    } else if tokens.len() == 0 {
        false
    } else if tokens[0].takes(text[0]) {
        fills(tokens.skip(1), text.skip(1))
    } else if tokens[0] is Sep {
        fills(tokens.skip(1), text)
    } else {
        false
    }
}

/// The `char`s of `text` that stand at positions that are no separators.
pub open spec fn emptied(tokens: Seq<MaskToken>, text: Seq<char>) -> Seq<char>
    decreases text.len(),
{
    if text.len() == 0 {
        Seq::empty()
    } else {
        let rest = emptied(tokens, text.drop_last());
        let i = text.len() - 1;
        if i < tokens.len() && !(tokens[i] is Sep) {
            rest.push(text.last())
        } else {
            rest
        }
    }
}

/// `s` without the occurrences of `c`.
pub open spec fn without(s: Seq<char>, c: char) -> Seq<char>
    decreases s.len(),
{
    if s.len() == 0 {
        s
    } else if s.last() == c {
        without(s.drop_last(), c)
    } else {
        without(s.drop_last(), c).push(s.last())
    }
}

/// `s` without its group separators.
pub open spec fn ungrouped(s: Seq<char>, separator: Option<char>) -> Seq<char> {
    match separator {
        Some(c) => without(s, c),
        None => s,
    }
}

/// The index of the first dot; the length when there is none.
pub open spec fn dot_index(s: Seq<char>) -> int
    decreases s.len(),
{
    if s.len() == 0 || s[0] == '.' {
        0
    } else {
        1 + dot_index(s.skip(1))
    }
}

/// The first `i` digits, with a separator before each digit that has a
/// multiple of three digits from it to the end.
pub open spec fn grouped_upto(digits: Seq<char>, separator: char, i: int) -> Seq<char>
    decreases i,
{
    if i <= 0 {
        Seq::empty()
    } else {
        let rest = grouped_upto(digits, separator, i - 1);
        if i > 1 && (digits.len() - (i - 1)) % 3 == 0 {
            rest.push(separator).push(digits[i - 1])
        } else {
            rest.push(digits[i - 1])
        }
    }
}

/// `digits` in groups of three.
pub open spec fn grouped(digits: Seq<char>, separator: Option<char>) -> Seq<char> {
    match separator {
        Some(c) => grouped_upto(digits, c, digits.len() as int),
        None => digits,
    }
}

/// The sign that a number starts with, or nothing.
pub open spec fn sign_of(s: Seq<char>) -> Seq<char> {
    if s.len() > 0 && is_sign(s[0]) {
        s.take(1)
    } else {
        Seq::empty()
    }
}

/// The integer part of a number, with its sign and its groups.
pub open spec fn integer_part(s: Seq<char>, separator: Option<char>) -> Seq<char> {
    sign_of(s) + grouped(s.skip(sign_of(s).len() as int), separator)
}

/// The first digits of the fraction, at most as many as `fraction` allows.
pub open spec fn fraction_part(s: Seq<char>, fraction: Option<usize>) -> Seq<char> {
    match fraction {
        Some(n) => if s.len() <= n {
            s
        } else {
            s.take(n as int)
        },
        None => s,
    }
}

/// `s` as a number: the integer part grouped, the fraction cut to size.
pub open spec fn number_masked(
    s: Seq<char>,
    separator: Option<char>,
    fraction: Option<usize>,
) -> Seq<char> {
    let t = ungrouped(s, separator);
    let d = dot_index(t);
    let int_part = integer_part(t.take(d), separator);
    if d < t.len() {
        int_part.push('.') + fraction_part(t.skip(d + 1), fraction)
    } else {
        int_part
    }
}

/// Whether `c` may stand at index `i` of the integer part of a number.
pub open spec fn integer_char(c: char, i: int, separator: Option<char>) -> bool {
    is_digit(c) || separator == Some(c) || (i == 0 && is_sign(c))
}

/// Whether `s` can be a number, or the beginning of one.
pub open spec fn number_valid(s: Seq<char>, separator: Option<char>) -> bool {
    let d = dot_index(s);
    &&& forall|i: int| 0 <= i < d ==> integer_char(#[trigger] s[i], i, separator)
    &&& forall|i: int| d < i < s.len() ==> is_digit(#[trigger] s[i])
}

impl MaskView {
    /// `text` as the mask formats it.
    pub open spec fn masked(self, text: Seq<char>) -> Seq<char> {
        match self {
            MaskView::Plain => text,
            MaskView::Pattern { tokens } => filled(tokens, text),
            MaskView::Number { separator, fraction } => number_masked(text, separator, fraction),
        }
    }

    /// `text` without what the mask put in.
    pub open spec fn unmasked(self, text: Seq<char>) -> Seq<char> {
        match self {
            MaskView::Plain => text,
            MaskView::Pattern { tokens } => emptied(tokens, text),
            MaskView::Number { separator, fraction } => ungrouped(text, separator),
        }
    }

    /// Whether the mask takes `text`.
    pub open spec fn valid(self, text: Seq<char>) -> bool {
        match self {
            MaskView::Plain => true,
            MaskView::Pattern { tokens } => fills(tokens, text),
            MaskView::Number { separator, fraction } => number_valid(text, separator),
        }
    }

    /// What the mask shows while the input is empty.
    pub open spec fn placeholder(self) -> Option<Seq<char>> {
        match self {
            MaskView::Pattern { tokens } => Some(tokens.map_values(|t: MaskToken| t.shown())),
            _ => None,
        }
    }
}

fn fill(tokens: &Vec<MaskToken>, text: &Vec<char>) -> (r: (Vec<char>, bool))
    ensures
        r.0@ == filled(tokens@, text@),
        r.1 == fills(tokens@, text@),
{
    let mut out: Vec<char> = Vec::new();
    let mut i: usize = 0;
    let mut j: usize = 0;
    assert(tokens@.skip(0) =~= tokens@);
    assert(text@.skip(0) =~= text@);
    assert(Seq::<char>::empty() + filled(tokens@, text@) =~= filled(tokens@, text@));
    while i < tokens.len() && j < text.len()
        invariant
            i <= tokens.len(),
            j <= text.len(),
            filled(tokens@, text@) == out@ + filled(
                tokens@.skip(i as int),
                text@.skip(j as int),
            ),
            fills(tokens@, text@) == fills(tokens@.skip(i as int), text@.skip(j as int)),
        decreases tokens.len() - i,
    {
        let ghost ts = tokens@.skip(i as int);
        let ghost cs = text@.skip(j as int);
        let ghost before = out@;
        let c = text[j];
        assert(ts[0] == tokens@[i as int]);
        assert(cs[0] == c);
        assert(ts.skip(1) =~= tokens@.skip(i as int + 1));
        assert(cs.skip(1) =~= text@.skip(j as int + 1));
        if tokens[i].accepts(c) {
            out.push(c);
            assert(before + (seq![c] + filled(ts.skip(1), cs.skip(1))) =~= out@ + filled(
                ts.skip(1),
                cs.skip(1),
            ));
            j = j + 1;
        } else {
            match tokens[i] {
                MaskToken::Sep(sep) => {
                    out.push(sep);
                    assert(before + (seq![sep] + filled(ts.skip(1), cs)) =~= out@ + filled(
                        ts.skip(1),
                        cs,
                    ));
                },
                _ => {
                    assert(before + Seq::<char>::empty() =~= before);
                    return (out, false);
                },
            }
        }
        i = i + 1;
    }
    assert(out@ + Seq::<char>::empty() =~= out@);
    let all: bool = j == text.len();
    (out, all)
}

fn remove_separators(text: &Vec<char>, separator: Option<char>) -> (out: Vec<char>)
    ensures
        out@ == ungrouped(text@, separator),
{
    match separator {
        None => {
            let mut out: Vec<char> = Vec::new();
            for i in 0..text.len()
                invariant
                    out@ == text@.take(i as int),
            {
                out.push(text[i]);
                assert(out@ =~= text@.take(i as int + 1));
            }
            assert(text@.take(text@.len() as int) =~= text@);
            out
        },
        Some(c) => {
            let mut out: Vec<char> = Vec::new();
            for i in 0..text.len()
                invariant
                    out@ == without(text@.take(i as int), c),
            {
                assert(text@.take(i as int + 1).drop_last() =~= text@.take(i as int));
                if text[i] != c {
                    out.push(text[i]);
                }
            }
            assert(text@.take(text@.len() as int) =~= text@);
            out
        },
    }
}

fn find_dot(text: &Vec<char>) -> (d: usize)
    ensures
        d == dot_index(text@),
        d <= text.len(),
{
    let mut d: usize = 0;
    assert(text@.skip(0) =~= text@);
    while d < text.len() && text[d] != '.'
        invariant
            d <= text.len(),
            dot_index(text@) == d + dot_index(text@.skip(d as int)),
        decreases text.len() - d,
    {
        assert(text@.skip(d as int).skip(1) =~= text@.skip(d as int + 1));
        d = d + 1;
    }
    d
}

/// Appends the digits between `start` and `end`, grouped.
fn push_grouped(
    out: &mut Vec<char>,
    text: &Vec<char>,
    start: usize,
    end: usize,
    separator: Option<char>,
)
    requires
        start <= end <= text.len(),
    ensures
        final(out)@ == old(out)@ + grouped(
            text@.subrange(start as int, end as int),
            separator,
        ),
{
    let ghost digits = text@.subrange(start as int, end as int);
    let ghost before = out@;
    let n: usize = end - start;
    match separator {
        None => {
            for i in 0..n
                invariant
                    n == end - start,
                    start <= end <= text.len(),
                    digits == text@.subrange(start as int, end as int),
                    out@ == before + digits.take(i as int),
            {
                out.push(text[start + i]);
                assert(out@ =~= before + digits.take(i as int + 1));
            }
            assert(digits.take(n as int) =~= digits);
        },
        Some(c) => {
            for i in 0..n
                invariant
                    n == end - start,
                    start <= end <= text.len(),
                    digits == text@.subrange(start as int, end as int),
                    out@ == before + grouped_upto(digits, c, i as int),
            {
                if i > 0 && (n - i) % 3 == 0 {
                    out.push(c);
                }
                out.push(text[start + i]);
                assert(out@ =~= before + grouped_upto(digits, c, i as int + 1));
            }
        },
    }
}

fn mask_number(text: &Vec<char>, separator: Option<char>, fraction: Option<usize>) -> (out: Vec<
    char,
>)
    ensures
        out@ == number_masked(text@, separator, fraction),
{
    let t = remove_separators(text, separator);
    let d = find_dot(&t);
    let ghost int_part = t@.take(d as int);
    let mut out: Vec<char> = Vec::new();
    let mut start: usize = 0;
    if d > 0 && (t[0] == '+' || t[0] == '-') {
        out.push(t[0]);
        start = 1;
    }
    assert(out@ =~= sign_of(int_part));
    push_grouped(&mut out, &t, start, d, separator);
    assert(t@.subrange(start as int, d as int) =~= int_part.skip(start as int));
    assert(out@ =~= integer_part(int_part, separator));
    if d < t.len() {
        out.push('.');
        let ghost head = out@;
        let rest: usize = t.len() - d - 1;
        let keep: usize = match fraction {
            Some(n) => if rest <= n {
                rest
            } else {
                n
            },
            None => rest,
        };
        let ghost frac = t@.skip(d as int + 1);
        for i in 0..keep
            invariant
                keep <= rest,
                rest == t.len() - d - 1,
                frac == t@.skip(d as int + 1),
                out@ == head + frac.take(i as int),
        {
            out.push(t[d + 1 + i]);
            assert(out@ =~= head + frac.take(i as int + 1));
        }
        assert(frac.take(rest as int) =~= frac);
    }
    out
}

fn check_number(text: &Vec<char>, separator: Option<char>) -> (r: bool)
    ensures
        r == number_valid(text@, separator),
{
    let d = find_dot(text);
    for i in 0..d
        invariant
            d == dot_index(text@),
            d <= text.len(),
            forall|k: int| 0 <= k < i ==> integer_char(#[trigger] text@[k], k, separator),
    {
        let c = text[i];
        let separates: bool = match separator {
            Some(s) => s == c,
            None => false,
        };
        if !(('0' <= c && c <= '9') || separates || (i == 0 && (c == '+' || c == '-'))) {
            assert(!integer_char(text@[i as int], i as int, separator));
            return false;
        }
    }
    let mut i: usize = d;
    while i < text.len()
        invariant
            d == dot_index(text@),
            d <= i <= text.len(),
            forall|k: int| 0 <= k < d ==> integer_char(#[trigger] text@[k], k, separator),
            forall|k: int| d < k < i ==> is_digit(#[trigger] text@[k]),
        decreases text.len() - i,
    {
        let c = text[i];
        if i > d && !('0' <= c && c <= '9') {
            assert(!is_digit(text@[i as int]));
            return false;
        }
        i = i + 1;
    }
    true
}

fn token_of(c: char) -> (token: MaskToken)
    ensures
        token == MaskToken::named(c),
{
    if c == '9' {
        MaskToken::Digit
    } else if c == 'A' {
        MaskToken::Letter
    } else if c == '*' {
        MaskToken::Any
    } else {
        MaskToken::Sep(c)
    }
}

impl MaskPattern {
    /// The mask that `pattern` describes: `9` is a digit or a dot, `A` a
    /// letter, `*` any `char`, and every other `char` stands for itself.
    pub fn new(pattern: &str) -> (mask: MaskPattern)
        ensures
            mask@ == (MaskView::Pattern {
                tokens: pattern@.map_values(|c: char| MaskToken::named(c)),
            }),
    {
        let chars = str_chars(pattern);
        let mut tokens: Vec<MaskToken> = Vec::new();
        for i in 0..chars.len()
            invariant
                chars@ == pattern@,
                tokens@.len() == i,
                forall|k: int| 0 <= k < i ==> tokens@[k] == MaskToken::named(pattern@[k]),
        {
            tokens.push(token_of(chars[i]));
        }
        assert(tokens@ =~= pattern@.map_values(|c: char| MaskToken::named(c)));
        MaskPattern::Pattern { tokens }
    }

    /// Whether this mask leaves the text alone.
    pub fn is_none(&self) -> (r: bool)
        ensures
            r == (self@ is Plain),
    {
        match self {
            MaskPattern::Plain => true,
            _ => false,
        }
    }

    pub fn is_number(&self) -> (r: bool)
        ensures
            r == (self@ is Number),
    {
        match self {
            MaskPattern::Number { .. } => true,
            _ => false,
        }
    }

    /// Whether the mask takes `text`.
    pub fn is_valid(&self, text: &str) -> (r: bool)
        ensures
            r == self@.valid(text@),
    {
        match self {
            MaskPattern::Plain => true,
            MaskPattern::Pattern { tokens } => fill(tokens, &str_chars(text)).1,
            MaskPattern::Number { separator, .. } => check_number(&str_chars(text), *separator),
        }
    }

    /// `text` as the mask formats it.
    pub fn mask(&self, text: &str) -> (out: String)
        ensures
            out@ == self@.masked(text@),
    {
        match self {
            MaskPattern::Plain => text.to_owned(),
            MaskPattern::Pattern { tokens } => string_of(&fill(tokens, &str_chars(text)).0),
            MaskPattern::Number { separator, fraction } => string_of(
                &mask_number(&str_chars(text), *separator, *fraction),
            ),
        }
    }

    /// `text` without what the mask put in.
    pub fn unmask(&self, text: &str) -> (out: String)
        ensures
            out@ == self@.unmasked(text@),
    {
        match self {
            MaskPattern::Plain => text.to_owned(),
            MaskPattern::Pattern { tokens } => {
                let chars = str_chars(text);
                let mut out: Vec<char> = Vec::new();
                for i in 0..chars.len()
                    invariant
                        chars@ == text@,
                        out@ == emptied(tokens@, text@.take(i as int)),
                {
                    assert(text@.take(i as int + 1).drop_last() =~= text@.take(i as int));
                    let keeps: bool = i < tokens.len() && match tokens[i] {
                        MaskToken::Sep(_) => false,
                        _ => true,
                    };
                    if keeps {
                        out.push(chars[i]);
                    }
                }
                assert(text@.take(text@.len() as int) =~= text@);
                string_of(&out)
            },
            MaskPattern::Number { separator, .. } => string_of(
                &remove_separators(&str_chars(text), *separator),
            ),
        }
    }

    /// What the mask shows while the input is empty, e.g. `(___) ___-____`.
    pub fn placeholder(&self) -> (p: Option<String>)
        ensures
            match p {
                Some(s) => self@.placeholder() == Some(s@),
                None => self@.placeholder() is None,
            },
    {
        match self {
            MaskPattern::Pattern { tokens } => {
                let mut out: Vec<char> = Vec::new();
                for i in 0..tokens.len()
                    invariant
                        out@.len() == i,
                        forall|k: int| 0 <= k < i ==> out@[k] == tokens@[k].shown(),
                {
                    out.push(
                        match tokens[i] {
                            MaskToken::Sep(sep) => sep,
                            _ => '_',
                        },
                    );
                }
                assert(out@ =~= tokens@.map_values(|t: MaskToken| t.shown()));
                Some(string_of(&out))
            },
            _ => None,
        }
    }
}

impl Default for MaskPattern {
    fn default() -> (mask: Self)
        ensures
            mask@ is Plain,
    {
        MaskPattern::Plain
    }
}

// ---------------------------------------------------------------------------
// Full-width numbers

/// The ASCII equivalent of a full-width number `char`; any other `char` is kept.
pub open spec fn normalized_char(c: char) -> char {
    if '\u{ff10}' <= c <= '\u{ff19}' {
        ((c as u32 - 0xff10 + 0x30) as u8) as char
    } else if c == '\u{ff0b}' {
        '+'
    } else if c == '\u{ff0d}' {
        '-'
    } else if c == '\u{ff0c}' {
        ','
    } else if c == '\u{3002}' || c == '\u{ff0e}' {
        '.'
    } else {
        c
    }
}

pub open spec fn number_normalized(s: Seq<char>) -> Seq<char> {
    s.map_values(|c: char| normalized_char(c))
}

/// Turns full-width digits, signs, commas and full stops into their ASCII equivalents.
pub fn normalize_number_input(text: &str) -> (out: String)
    ensures
        out@ == number_normalized(text@),
{
    let chars = str_chars(text);
    let mut out: Vec<char> = Vec::new();
    for i in 0..chars.len()
        invariant
            chars@ == text@,
            out@.len() == i,
            forall|k: int| 0 <= k < i ==> out@[k] == normalized_char(text@[k]),
    {
        let c = chars[i];
        let d = if '\u{ff10}' <= c && c <= '\u{ff19}' {
            ((c as u32 - 0xff10 + 0x30) as u8) as char
        } else if c == '\u{ff0b}' {
            '+'
        } else if c == '\u{ff0d}' {
            '-'
        } else if c == '\u{ff0c}' {
            ','
        } else if c == '\u{3002}' || c == '\u{ff0e}' {
            '.'
        } else {
            c
        };
        out.push(d);
    }
    assert(out@ =~= number_normalized(text@));
    string_of(&out)
}

/// Normalizing a number keeps its length in UTF-16 and never makes it longer in bytes.
pub proof fn law_normalized_len(s: Seq<char>)
    ensures
        utf16_len(number_normalized(s)) == utf16_len(s),
        byte_len(number_normalized(s)) <= byte_len(s),
        number_normalized(s).len() == s.len(),
    decreases s.len(),
{
    if s.len() > 0 {
        law_normalized_len(s.drop_last());
        assert(number_normalized(s).drop_last() =~= number_normalized(s.drop_last()));
    }
}

// ---------------------------------------------------------------------------
// Laws

/// A mask takes the text that it formatted, and formats it to itself.
pub proof fn law_pattern_mask_is_stable(tokens: Seq<MaskToken>, text: Seq<char>)
    ensures
        filled(tokens, filled(tokens, text)) == filled(tokens, text),
        fills(tokens, filled(tokens, text)),
        filled(tokens, text).len() <= tokens.len(),
    decreases tokens.len(),
{
    let m = filled(tokens, text);
    if tokens.len() > 0 && text.len() > 0 {
        if tokens[0].takes(text[0]) {
            law_pattern_mask_is_stable(tokens.skip(1), text.skip(1));
            assert(m.skip(1) =~= filled(tokens.skip(1), text.skip(1)));
        } else if let MaskToken::Sep(sep) = tokens[0] {
            law_pattern_mask_is_stable(tokens.skip(1), text);
            assert(m.skip(1) =~= filled(tokens.skip(1), text));
        }
    }
}

proof fn lemma_without_len(s: Seq<char>, c: char)
    ensures
        without(s, c).len() <= s.len(),
    decreases s.len(),
{
    if s.len() > 0 {
        lemma_without_len(s.drop_last(), c);
    }
}

proof fn lemma_without_push(s: Seq<char>, c: char, x: char)
    ensures
        without(s.push(x), c) == if x == c {
            without(s, c)
        } else {
            without(s, c).push(x)
        },
{
    assert(s.push(x).drop_last() =~= s);
}

pub proof fn lemma_without_concat(a: Seq<char>, b: Seq<char>, c: char)
    ensures
        without(a + b, c) == without(a, c) + without(b, c),
    decreases b.len(),
{
    if b.len() == 0 {
        assert(a + b =~= a);
        assert(without(a, c) + without(b, c) =~= without(a, c));
    } else {
        lemma_without_concat(a, b.drop_last(), c);
        assert((a + b).drop_last() =~= a + b.drop_last());
        assert(without(a, c) + without(b, c) =~= without(a + b, c));
    }
}

pub proof fn lemma_without_free(s: Seq<char>, c: char)
    ensures
        !without(s, c).contains(c),
        forall|i: int| 0 <= i < without(s, c).len() ==> s.contains(#[trigger] without(s, c)[i]),
        !s.contains(c) ==> without(s, c) == s,
    decreases s.len(),
{
    if s.len() > 0 {
        lemma_without_free(s.drop_last(), c);
        assert(s.contains(s.last()));
        if !s.contains(c) {
            assert(s.last() != c);
            if s.drop_last().contains(c) {
                let i = choose|i: int| 0 <= i < s.len() - 1 && s.drop_last()[i] == c;
                assert(s[i] == c);
            }
            assert(s.drop_last().push(s.last()) =~= s);
        }
        assert forall|i: int| 0 <= i < without(s, c).len() implies s.contains(
            #[trigger] without(s, c)[i],
        ) by {
            let w = without(s.drop_last(), c);
            if i < w.len() {
                assert(s.drop_last().contains(w[i]));
                let k = choose|k: int| 0 <= k < s.len() - 1 && s.drop_last()[k] == w[i];
                assert(s[k] == w[i]);
            }
        }
    }
}

pub proof fn lemma_ungroup(digits: Seq<char>, c: char, i: int)
    requires
        0 <= i <= digits.len(),
        !digits.contains(c),
    ensures
        without(grouped_upto(digits, c, i), c) == digits.take(i),
    decreases i,
{
    if i > 0 {
        lemma_ungroup(digits, c, i - 1);
        let rest = grouped_upto(digits, c, i - 1);
        assert(digits.contains(digits[i - 1]));
        lemma_without_push(rest, c, c);
        lemma_without_push(rest.push(c), c, digits[i - 1]);
        lemma_without_push(rest, c, digits[i - 1]);
        assert(digits.take(i - 1).push(digits[i - 1]) =~= digits.take(i));
    }
}

/// Where the first dot is.
pub proof fn lemma_dot_index(s: Seq<char>)
    ensures
        0 <= dot_index(s) <= s.len(),
        dot_index(s) < s.len() ==> s[dot_index(s)] == '.',
        forall|i: int| 0 <= i < dot_index(s) ==> s[i] != '.',
    decreases s.len(),
{
    if s.len() > 0 && s[0] != '.' {
        lemma_dot_index(s.skip(1));
        assert forall|i: int| 0 <= i < dot_index(s) implies s[i] != '.' by {
            if i > 0 {
                assert(s.skip(1)[i - 1] != '.');
            }
        }
    }
}

proof fn lemma_dot_unique(s: Seq<char>, d: int)
    requires
        0 <= d <= s.len(),
        d < s.len() ==> s[d] == '.',
        forall|i: int| 0 <= i < d ==> s[i] != '.',
    ensures
        dot_index(s) == d,
{
    lemma_dot_index(s);
}

/// Taking the groups out of a masked number gives the number without its
/// groups, its fraction cut to size.
pub proof fn law_number_unmasks(s: Seq<char>, separator: Option<char>, fraction: Option<usize>)
    requires
        separator matches Some(c) ==> c != '.' && !is_sign(c),
    ensures
        ({
            let t = ungrouped(s, separator);
            let d = dot_index(t);
            ungrouped(number_masked(s, separator, fraction), separator) == if d < t.len() {
                t.take(d + 1) + fraction_part(t.skip(d + 1), fraction)
            } else {
                t
            }
        }),
{
    let t = ungrouped(s, separator);
    let d = dot_index(t);
    lemma_dot_index(t);
    let head = t.take(d);
    let sign = sign_of(head);
    let digits = head.skip(sign.len() as int);
    let frac = fraction_part(t.skip(d + 1), fraction);
    assert(sign + digits =~= head);
    match separator {
        None => {
            if d < t.len() {
                assert(head.push('.') =~= t.take(d + 1));
            } else {
                assert(head =~= t);
            }
        },
        Some(c) => {
            lemma_without_free(s, c);
            if digits.contains(c) {
                let i = choose|i: int| 0 <= i < digits.len() && digits[i] == c;
                assert(t[i + sign.len()] == c);
                assert(t.contains(c));
            }
            lemma_ungroup(digits, c, digits.len() as int);
            assert(digits.take(digits.len() as int) =~= digits);
            if sign.contains(c) {
                assert(is_sign(c));
            }
            lemma_without_free(sign, c);
            let g = grouped(digits, separator);
            lemma_without_concat(sign, g, c);
            assert(without(sign + g, c) =~= head);
            if d < t.len() {
                lemma_without_push(sign + g, c, '.');
                if frac.contains(c) {
                    let i = choose|i: int| 0 <= i < frac.len() && frac[i] == c;
                    assert(t[d + 1 + i] == c);
                    assert(t.contains(c));
                }
                lemma_without_free(frac, c);
                lemma_without_concat((sign + g).push('.'), frac, c);
                assert(head.push('.') =~= t.take(d + 1));
            } else {
                assert(head =~= t);
            }
        },
    }
}

/// Masking a number a second time changes nothing.
pub proof fn law_number_mask_is_stable(
    s: Seq<char>,
    separator: Option<char>,
    fraction: Option<usize>,
)
    requires
        separator matches Some(c) ==> c != '.' && !is_sign(c),
    ensures
        number_masked(number_masked(s, separator, fraction), separator, fraction) == number_masked(
            s,
            separator,
            fraction,
        ),
{
    let t = ungrouped(s, separator);
    let d = dot_index(t);
    lemma_dot_index(t);
    law_number_unmasks(s, separator, fraction);
    let m = number_masked(s, separator, fraction);
    let u = ungrouped(m, separator);
    lemma_dot_unique(u, d);
    assert(u.take(d) =~= t.take(d));
    if d < t.len() {
        let frac = fraction_part(t.skip(d + 1), fraction);
        assert(u.skip(d + 1) =~= frac);
        assert(fraction_part(frac, fraction) =~= frac);
    }
}

proof fn lemma_grouped_chars(digits: Seq<char>, c: char, i: int)
    requires
        0 <= i <= digits.len(),
        forall|k: int| 0 <= k < digits.len() ==> is_digit(#[trigger] digits[k]),
    ensures
        forall|k: int|
            0 <= k < grouped_upto(digits, c, i).len() ==> (is_digit(
                #[trigger] grouped_upto(digits, c, i)[k],
            ) || grouped_upto(digits, c, i)[k] == c),
    decreases i,
{
    if i > 0 {
        lemma_grouped_chars(digits, c, i - 1);
        let g = grouped_upto(digits, c, i);
        let rest = grouped_upto(digits, c, i - 1);
        assert forall|k: int| 0 <= k < g.len() implies (is_digit(#[trigger] g[k]) || g[k]
            == c) by {
            if k < rest.len() {
                assert(g[k] == rest[k]);
            }
        }
    }
}

pub proof fn lemma_ungrouped_integer(p: Seq<char>, separator: Option<char>)
    requires
        forall|i: int| 0 <= i < p.len() ==> integer_char(#[trigger] p[i], i, separator),
    ensures
        forall|i: int|
            0 <= i < ungrouped(p, separator).len() ==> integer_char(
                #[trigger] ungrouped(p, separator)[i],
                i,
                None,
            ),
    decreases p.len(),
{
    if p.len() > 0 && separator is Some {
        assert forall|i: int| 0 <= i < p.drop_last().len() implies integer_char(
            #[trigger] p.drop_last()[i],
            i,
            separator,
        ) by {
            assert(p.drop_last()[i] == p[i]);
        }
        lemma_ungrouped_integer(p.drop_last(), separator);
        assert(integer_char(p[p.len() - 1], p.len() - 1, separator));
        let w = ungrouped(p, separator);
        let rest = ungrouped(p.drop_last(), separator);
        lemma_without_len(p.drop_last(), separator->0);
        assert forall|i: int| 0 <= i < w.len() implies integer_char(#[trigger] w[i], i, None) by {
            if i < rest.len() {
                assert(w[i] == rest[i]);
            }
        }
    }
}

/// A valid number is still valid once it is masked.
pub proof fn law_masked_number_is_valid(
    s: Seq<char>,
    separator: Option<char>,
    fraction: Option<usize>,
)
    requires
        separator matches Some(c) ==> c != '.',
        number_valid(s, separator),
    ensures
        number_valid(number_masked(s, separator, fraction), separator),
{
    let e = dot_index(s);
    lemma_dot_index(s);
    let p = s.take(e);
    let q = s.skip(e);
    assert(s =~= p + q);
    assert forall|i: int| 0 <= i < p.len() implies integer_char(
        #[trigger] p[i],
        i,
        separator,
    ) by {
        assert(p[i] == s[i]);
    }
    lemma_ungrouped_integer(p, separator);
    let t = ungrouped(s, separator);
    let head = ungrouped(p, separator);
    let tail = ungrouped(q, separator);
    // The first dot still separates the two parts.
    if let Some(c) = separator {
        lemma_without_concat(p, q, c);
        if q.len() > 0 {
            let r = q.skip(1);
            assert(q =~= seq!['.'] + r);
            lemma_without_concat(seq!['.'], r, c);
            lemma_without_push(Seq::empty(), c, '.');
            assert(Seq::<char>::empty().push('.') =~= seq!['.']);
            lemma_without_free(r, c);
            assert(tail =~= seq!['.'] + without(r, c));
            assert forall|i: int| 1 <= i < tail.len() implies is_digit(#[trigger] tail[i]) by {
                assert(r.contains(without(r, c)[i - 1]));
                let k = choose|k: int| 0 <= k < r.len() && r[k] == without(r, c)[i - 1];
                assert(r[k] == s[e + 1 + k]);
            }
        }
    } else {
        assert forall|i: int| 1 <= i < tail.len() implies is_digit(#[trigger] tail[i]) by {
            assert(tail[i] == s[e + i]);
        }
    }
    assert(t =~= head + tail);
    let d = head.len() as int;
    assert forall|i: int| 0 <= i < d implies t[i] != '.' by {
        assert(integer_char(head[i], i, None));
    }
    lemma_dot_unique(t, d);
    assert(t.take(d) =~= head);
    let sign = sign_of(head);
    let digits = head.skip(sign.len() as int);
    assert forall|k: int| 0 <= k < digits.len() implies is_digit(#[trigger] digits[k]) by {
        assert(integer_char(head[k + sign.len()], k + sign.len(), None));
    }
    let g = grouped(digits, separator);
    if let Some(c) = separator {
        lemma_grouped_chars(digits, c, digits.len() as int);
    }
    let m = number_masked(s, separator, fraction);
    let int_part = sign + g;
    assert forall|i: int| 0 <= i < int_part.len() implies m[i] != '.' && integer_char(
        #[trigger] m[i],
        i,
        separator,
    ) by {
        assert(m[i] == int_part[i]);
        if i >= sign.len() {
            assert(m[i] == g[i - sign.len()]);
        }
    }
    lemma_dot_unique(m, int_part.len() as int);
    let frac = fraction_part(t.skip(d + 1), fraction);
    assert forall|i: int| int_part.len() < i < m.len() implies is_digit(#[trigger] m[i]) by {
        let k = i - int_part.len() - 1;
        assert(m[i] == frac[k]);
        assert(frac[k] == tail[k + 1]);
    }
}

} // verus!
