//! Where the cursor is once a mask has formatted what was typed.
use crate::edit::{Verdict, Verdicts};
use crate::mask_pattern::{
    dot_index, fraction_part, grouped, grouped_upto, integer_char, integer_part, is_digit, is_sign,
    law_number_unmasks, lemma_dot_index, lemma_without_concat, lemma_without_free, number_masked,
    number_valid, sign_of, ungrouped, without,
};
use crate::motion_laws::{aims_at, lemma_aimed, lemma_between};
use crate::state::StateView;
use crate::text::{byte_len, index_at, is_boundary, lemma_measure_concat, width, Unit};
use core::ops::Range;
use vstd::prelude::*;

verus! {

/// After an edit of a masked input the cursor has as many bytes behind it as
/// stood behind what was replaced, wherever the text in between is formatted
/// to. It never goes back before the start of the edit, but for the end of
/// the text.
pub proof fn law_masked_cursor_keeps_distance_to_end(
    s: StateView,
    range: Option<Range<usize>>,
    a: Seq<char>,
    old: Seq<char>,
    b: Seq<char>,
    t: Seq<char>,
    v: Verdicts,
)
    requires
        s.text == a + old + b,
        aims_at(s, range, a, old),
        s.single_line(),
        !(s.mask is Plain),
        s.editable(),
        !s.rejects(range, t, v),
        byte_len(s.replaced(range, t, v).text) <= usize::MAX,
    ensures
        ({
            let after = s.replaced(range, t, v);
            let n = byte_len(after.text);
            &&& after.text == s.mask.masked(a + s.normalized(t) + b)
            &&& after.selected.start == after.selected.end
            &&& byte_len(a) + byte_len(b) <= n ==> after.selected.end + byte_len(b) == n
            &&& byte_len(a) <= n < byte_len(a) + byte_len(b) ==> after.selected.end == byte_len(a)
            &&& n < byte_len(a) ==> after.selected.end == n
        }),
{
    reveal(StateView::replaced);
    let new = s.normalized(t);
    lemma_aimed(s, range, a, old, b, new);
    lemma_measure_concat(Unit::Utf8, a, new);
}

/// Where the formatted text still ends with what stood behind the edit, that
/// is what stands behind the cursor: typing in the middle leaves the cursor
/// right behind what was typed.
pub proof fn law_masked_cursor_stays_before_rest(
    s: StateView,
    range: Option<Range<usize>>,
    a: Seq<char>,
    old: Seq<char>,
    b: Seq<char>,
    t: Seq<char>,
    v: Verdicts,
    x: Seq<char>,
)
    requires
        s.text == a + old + b,
        aims_at(s, range, a, old),
        s.single_line(),
        !(s.mask is Plain),
        s.editable(),
        !s.rejects(range, t, v),
        byte_len(s.replaced(range, t, v).text) <= usize::MAX,
        s.mask.masked(a + s.normalized(t) + b) == x + b,
        byte_len(a) <= byte_len(x),
    ensures
        s.replaced(range, t, v).text == x + b,
        s.replaced(range, t, v).selected.start == byte_len(x),
        s.replaced(range, t, v).selected.end == byte_len(x),
{
    law_masked_cursor_keeps_distance_to_end(s, range, a, old, b, t, v);
    lemma_measure_concat(Unit::Utf8, x, b);
}

// ---------------------------------------------------------------------------
// Groups of digits

/// The length of `m` digits with their separators.
pub open spec fn grouped_len(m: int) -> int {
    if m <= 0 {
        0
    } else {
        m + (m - 1) / 3
    }
}

/// The place of digit `k` among `m` digits with their separators.
spec fn place(m: int, k: int) -> int {
    k + (m - 1) / 3 - (m - k - 1) / 3
}

proof fn lemma_grouped_places(digits: Seq<char>, c: char, i: int)
    requires
        1 <= i <= digits.len(),
    ensures
        ({
            let m = digits.len() as int;
            let g = grouped_upto(digits, c, i);
            &&& g.len() == place(m, i - 1) + 1
            &&& forall|k: int| 0 <= k < i ==> g[#[trigger] place(m, k)] == digits[k]
            &&& forall|k: int|
                1 <= k < i && (m - k) % 3 == 0 ==> g[#[trigger] place(m, k) - 1] == c
        }),
    decreases i,
{
    let m = digits.len() as int;
    let g = grouped_upto(digits, c, i);
    let rest = grouped_upto(digits, c, i - 1);
    if i > 1 {
        lemma_grouped_places(digits, c, i - 1);
        assert(place(m, i - 1) == place(m, i - 2) + 1 + if (m - (i - 1)) % 3 == 0 {
            1int
        } else {
            0int
        });
        assert forall|k: int| 0 <= k < i implies g[#[trigger] place(m, k)] == digits[k] by {
            if k < i - 1 {
                assert(g[place(m, k)] == rest[place(m, k)]);
            }
        }
        assert forall|k: int| 1 <= k < i && (m - k) % 3 == 0 implies g[#[trigger] place(m, k) - 1]
            == c by {
            if k < i - 1 {
                assert(g[place(m, k) - 1] == rest[place(m, k) - 1]);
            }
        }
    } else {
        assert(rest.len() == 0);
        assert(place(m, 0) == 0);
    }
}

proof fn lemma_place(m: int, j: int)
    requires
        1 <= m,
        1 <= j <= grouped_len(m),
    ensures
        ({
            let k = m - (j - j / 4);
            &&& 0 <= k < m
            &&& j % 4 == 0 ==> 1 <= k && (m - k) % 3 == 0 && place(m, k) - 1 == grouped_len(m) - j
            &&& j % 4 != 0 ==> place(m, k) == grouped_len(m) - j
        }),
{
}

/// Counted from the right, every fourth place of a grouped number is a
/// separator, and the places between hold the digits, in order: groups have
/// three digits, and only the first may have fewer.
pub proof fn law_groups_have_three_digits(digits: Seq<char>, c: char)
    ensures
        ({
            let m = digits.len() as int;
            let g = grouped(digits, Some(c));
            let n = g.len() as int;
            &&& n == grouped_len(m)
            &&& forall|j: int|
                1 <= j <= n ==> #[trigger] g[n - j] == if j % 4 == 0 {
                    c
                } else {
                    digits[m - (j - j / 4)]
                }
        }),
{
    let m = digits.len() as int;
    let g = grouped(digits, Some(c));
    let n = g.len() as int;
    if m > 0 {
        lemma_grouped_places(digits, c, m);
        assert(n == grouped_len(m)) by {
            assert(place(m, m - 1) + 1 == grouped_len(m));
        }
        assert forall|j: int| 1 <= j <= n implies #[trigger] g[n - j] == if j % 4 == 0 {
            c
        } else {
            digits[m - (j - j / 4)]
        } by {
            lemma_place(m, j);
            let k = m - (j - j / 4);
            if j % 4 == 0 {
                assert(g[place(m, k) - 1] == c);
            } else {
                assert(g[place(m, k)] == digits[k]);
            }
        }
    }
}

/// The digits among the last `n` places of a grouped number.
proof fn lemma_digits_at_end(digits: Seq<char>, c: char, n: int)
    requires
        !digits.contains(c),
        0 <= n <= grouped_len(digits.len() as int),
    ensures
        ({
            let g = grouped(digits, Some(c));
            without(g.skip(g.len() - n), c) == digits.skip(digits.len() - (n - n / 4))
        }),
    decreases n,
{
    let g = grouped(digits, Some(c));
    let m = digits.len() as int;
    law_groups_have_three_digits(digits, c);
    let tail = g.skip(g.len() - n);
    if n == 0 {
        assert(tail =~= Seq::empty());
        assert(digits.skip(m) =~= Seq::empty());
    } else {
        lemma_digits_at_end(digits, c, n - 1);
        let rest = g.skip(g.len() - (n - 1));
        let first = g[g.len() - n];
        assert(tail =~= seq![first] + rest);
        lemma_without_concat(seq![first], rest, c);
        assert(seq![first].drop_last() =~= Seq::empty());
        let e = n - n / 4;
        if n % 4 == 0 {
            assert(without(seq![first], c) =~= Seq::empty()) by {
                reveal_with_fuel(without, 2);
            }
            assert(without(tail, c) =~= without(rest, c));
        } else {
            assert(digits.contains(digits[m - e]));
            assert(without(seq![first], c) =~= seq![first]) by {
                reveal_with_fuel(without, 2);
            }
            assert(seq![first] + digits.skip(m - e + 1) =~= digits.skip(m - e));
        }
    }
}

/// Whether `s` can be the integer part of a number without its groups.
spec fn plain_integer(s: Seq<char>) -> bool {
    forall|i: int| 0 <= i < s.len() ==> integer_char(#[trigger] s[i], i, None)
}

/// Whether a character can separate groups: it is no part of a number.
pub open spec fn separates(separator: Option<char>) -> bool {
    separator matches Some(c) ==> !is_digit(c) && !is_sign(c) && c != '.'
}

spec fn has_digit(s: Seq<char>) -> bool {
    exists|k: int| 0 <= k < s.len() && is_digit(#[trigger] s[k])
}

proof fn lemma_ends(x: Seq<char>, y: Seq<char>, w: Seq<char>, b: Seq<char>)
    requires
        x + y == w + b,
        b.len() <= y.len(),
    ensures
        y.skip(y.len() - b.len()) == b,
{
    let t = y.skip(y.len() - b.len());
    assert((x + y).len() == x.len() + y.len());
    assert((w + b).len() == w.len() + b.len());
    assert forall|i: int| 0 <= i < b.len() implies t[i] == b[i] by {
        let k = w.len() + i;
        let j = y.len() - b.len() + i;
        assert(k == x.len() + j);
        assert((w + b)[k] == b[i]);
        assert((x + y)[k] == y[j]);
        assert(t[i] == y[j]);
    }
    assert(t =~= b);
}

/// Digits that end alike are grouped alike at the end.
proof fn lemma_groups_tail(digits: Seq<char>, other: Seq<char>, c: char, n: int)
    requires
        0 <= n <= grouped_len(digits.len() as int),
        n <= grouped_len(other.len() as int),
        n - n / 4 <= digits.len(),
        n - n / 4 <= other.len(),
        digits.skip(digits.len() - (n - n / 4)) == other.skip(other.len() - (n - n / 4)),
    ensures
        ({
            let g = grouped(digits, Some(c));
            let h = grouped(other, Some(c));
            g.skip(g.len() - n) == h.skip(h.len() - n)
        }),
{
    let g = grouped(digits, Some(c));
    let h = grouped(other, Some(c));
    let q = n - n / 4;
    law_groups_have_three_digits(digits, c);
    law_groups_have_three_digits(other, c);
    let x = g.skip(g.len() - n);
    let y = h.skip(h.len() - n);
    assert forall|i: int| 0 <= i < n implies x[i] == y[i] by {
        let j = n - i;
        assert(x[i] == g[g.len() - j]);
        assert(y[i] == h[h.len() - j]);
        let e = j - j / 4;
        if j % 4 != 0 {
            assert(digits.skip(digits.len() - q)[q - e] == digits[digits.len() - e]);
            assert(other.skip(other.len() - q)[q - e] == other[other.len() - e]);
        }
    }
    assert(x =~= y);
}

/// Two integers that end with the same digits end with the same groups.
#[verifier::spinoff_prover]
#[verifier::rlimit(50)]
proof fn lemma_integer_tail(
    head: Seq<char>,
    other: Seq<char>,
    separator: Option<char>,
    w: Seq<char>,
    b: Seq<char>,
    u: Seq<char>,
) -> (z: Seq<char>)
    requires
        separates(separator),
        plain_integer(head),
        plain_integer(other),
        integer_part(head, separator) == w + b,
        b.len() <= grouped(head.skip(sign_of(head).len() as int), separator).len(),
        other == u + ungrouped(b, separator),
        b.len() > 0 && separator == Some(b[0]) ==> has_digit(u),
    ensures
        integer_part(other, separator) == z + b,
{
    let sign = sign_of(head);
    let digits = head.skip(sign.len() as int);
    let sign2 = sign_of(other);
    let digits2 = other.skip(sign2.len() as int);
    match separator {
        None => {
            assert(integer_part(other, separator) =~= other);
            u
        },
        Some(c) => {
            let n = b.len() as int;
            let q = n - n / 4;
            let g = grouped(digits, separator);
            let h = grouped(digits2, separator);
            lemma_ends(sign, g, w, b);
            lemma_tail_fits(head, other, c, b, u);
            lemma_groups_tail(digits, digits2, c, n);
            law_groups_have_three_digits(digits2, c);
            let z = sign2 + h.take(h.len() - n);
            assert(h =~= h.take(h.len() - n) + h.skip(h.len() - n));
            assert(sign2 + h =~= z + b);
            z
        },
    }
}

proof fn lemma_tail_fits(head: Seq<char>, other: Seq<char>, c: char, b: Seq<char>, u: Seq<char>)
    requires
        separates(Some(c)),
        plain_integer(head),
        plain_integer(other),
        ({
            let g = grouped(head.skip(sign_of(head).len() as int), Some(c));
            b.len() <= g.len() && b == g.skip(g.len() - b.len())
        }),
        other == u + without(b, c),
        b.len() > 0 && c == b[0] ==> has_digit(u),
    ensures
        ({
            let digits = head.skip(sign_of(head).len() as int);
            let digits2 = other.skip(sign_of(other).len() as int);
            let n = b.len() as int;
            let q = n - n / 4;
            &&& n <= grouped_len(digits.len() as int)
            &&& n <= grouped_len(digits2.len() as int)
            &&& q <= digits.len()
            &&& q <= digits2.len()
            &&& digits.skip(digits.len() - q) == digits2.skip(digits2.len() - q)
        }),
{
    let sl = sign_of(head).len() as int;
    let digits = head.skip(sl);
    let g = grouped(digits, Some(c));
    let m = digits.len() as int;
    let n = b.len() as int;
    let q = n - n / 4;
    law_groups_have_three_digits(digits, c);
    assert forall|k: int| 0 <= k < m implies is_digit(#[trigger] digits[k]) by {
        assert(integer_char(head[k + sl], k + sl, None));
    }
    if digits.contains(c) {
        let k = choose|k: int| 0 <= k < m && digits[k] == c;
        assert(is_digit(digits[k]));
    }
    lemma_digits_at_end(digits, c, n);
    let last = digits.skip(m - q);
    let sl2 = sign_of(other).len() as int;
    let digits2 = other.skip(sl2);
    assert(q <= m);
    assert(last.len() == q);
    if sl2 == 1 && u.len() == 0 && q > 0 {
        assert(other[0] == last[0] && last[0] == digits[m - q]);
        assert(is_digit(digits[m - q]));
    }
    if n > 0 && n % 4 == 0 {
        assert(b[0] == g[g.len() - n]);
        let k = choose|k: int| 0 <= k < u.len() && is_digit(#[trigger] u[k]);
        assert(other[k] == u[k]);
    }
    assert(digits2.len() == u.len() + q - sl2);
    assert(digits2.skip(digits2.len() - q) =~= last);
}

/// A masked number that lost nothing of its fraction.
proof fn lemma_masked_number(s: Seq<char>, separator: Option<char>, fraction: Option<usize>)
    requires
        separates(separator),
        ungrouped(number_masked(s, separator, fraction), separator) == ungrouped(s, separator),
    ensures
        ({
            let t = ungrouped(s, separator);
            let d = dot_index(t);
            number_masked(s, separator, fraction) == integer_part(t.take(d), separator) + t.skip(
                d,
            )
        }),
{
    let t = ungrouped(s, separator);
    let d = dot_index(t);
    lemma_dot_index(t);
    law_number_unmasks(s, separator, fraction);
    if d < t.len() {
        let f = fraction_part(t.skip(d + 1), fraction);
        assert((t.take(d + 1) + f).skip(d + 1) =~= f);
        assert(f =~= t.skip(d + 1));
        let i = integer_part(t.take(d), separator);
        assert(i.push('.') + f =~= i + t.skip(d));
    } else {
        assert(t.skip(d) =~= Seq::empty());
        let i = integer_part(t.take(d), separator);
        assert(i + t.skip(d) =~= i);
    }
}

proof fn lemma_ungrouped_concat(a: Seq<char>, b: Seq<char>, separator: Option<char>)
    ensures
        ungrouped(a + b, separator) == ungrouped(a, separator) + ungrouped(b, separator),
{
    if let Some(c) = separator {
        lemma_without_concat(a, b, c);
    }
}

/// What holds no separator stays as it is.
proof fn lemma_ungrouped_free(s: Seq<char>, separator: Option<char>)
    ensures
        (forall|i: int| 0 <= i < s.len() ==> separator != Some(#[trigger] s[i])) ==> ungrouped(
            s,
            separator,
        ) == s,
        forall|i: int|
            0 <= i < ungrouped(s, separator).len() ==> s.contains(
                #[trigger] ungrouped(s, separator)[i],
            ),
{
    match separator {
        Some(c) => {
            lemma_without_free(s, c);
        },
        None => {
            assert forall|i: int| 0 <= i < s.len() implies s.contains(#[trigger] s[i]) by {}
        },
    }
}

proof fn lemma_digit_kept(s: Seq<char>, separator: Option<char>)
    requires
        separates(separator),
        has_digit(s),
    ensures
        has_digit(ungrouped(s, separator)),
    decreases s.len(),
{
    let k = choose|k: int| 0 <= k < s.len() && is_digit(#[trigger] s[k]);
    let a = s.take(k);
    let b = s.skip(k + 1);
    assert(s =~= a + seq![s[k]] + b);
    lemma_ungrouped_concat(a + seq![s[k]], b, separator);
    lemma_ungrouped_concat(a, seq![s[k]], separator);
    lemma_ungrouped_free(seq![s[k]], separator);
    let u = ungrouped(s, separator);
    assert(u[ungrouped(a, separator).len() as int] == s[k]);
}

/// A valid number whose mask takes nothing from it: its groups, and what
/// stands from the point on.
#[verifier::spinoff_prover]
#[verifier::rlimit(50)]
proof fn lemma_valid_masked(s: Seq<char>, separator: Option<char>, fraction: Option<usize>)
    requires
        separates(separator),
        number_valid(s, separator),
        ungrouped(number_masked(s, separator, fraction), separator) == ungrouped(s, separator),
    ensures
        ({
            let e = dot_index(s);
            let head = ungrouped(s.take(e), separator);
            &&& 0 <= e <= s.len()
            &&& plain_integer(head)
            &&& number_masked(s, separator, fraction) == integer_part(head, separator) + s.skip(e)
        }),
{
    let e = dot_index(s);
    lemma_dot_index(s);
    let p = s.take(e);
    let q = s.skip(e);
    assert(s =~= p + q);
    lemma_ungrouped_concat(p, q, separator);
    assert forall|i: int| 0 <= i < p.len() implies integer_char(
        #[trigger] p[i],
        i,
        separator,
    ) by {
        assert(p[i] == s[i]);
    }
    crate::mask_pattern::lemma_ungrouped_integer(p, separator);
    let head = ungrouped(p, separator);
    assert forall|i: int| 0 <= i < q.len() implies separator != Some(#[trigger] q[i]) by {
        if i > 0 {
            assert(is_digit(s[e + i]));
        }
    }
    lemma_ungrouped_free(q, separator);
    let t = ungrouped(s, separator);
    assert(t == head + q);
    lemma_dot_index(t);
    assert forall|i: int| 0 <= i < head.len() implies t[i] != '.' by {
        assert(integer_char(head[i], i, None));
    }
    let d = dot_index(t);
    assert(d == head.len()) by {
        if q.len() > 0 {
            assert(t[head.len() as int] == '.');
        }
    }
    assert(t.take(d) =~= head);
    assert(t.skip(d) =~= q);
    lemma_masked_number(s, separator, fraction);
}

/// Digits behind a point that was taken out: up to three of them end the
/// number as they are.
#[verifier::spinoff_prover]
#[verifier::rlimit(50)]
proof fn lemma_short_tail(t: Seq<char>, separator: Option<char>, b: Seq<char>, u: Seq<char>) -> (z:
    Seq<char>)
    requires
        t == u + b,
        forall|i: int| 0 <= i < b.len() ==> is_digit(#[trigger] b[i]),
        b.len() <= 3 || separator is None,
    ensures
        integer_part(t, separator) == z + b,
{
    let sign = sign_of(t);
    let digits = t.skip(sign.len() as int);
    let n = b.len() as int;
    if sign.len() == 1 && u.len() == 0 && n > 0 {
        assert(t[0] == b[0]);
        assert(is_digit(b[0]));
    }
    match separator {
        None => {
            assert(integer_part(t, separator) =~= t);
            u
        },
        Some(c) => {
            let g = grouped(digits, separator);
            law_groups_have_three_digits(digits, c);
            assert(n <= digits.len());
            let z = sign + g.take(g.len() - n);
            assert forall|i: int| 0 <= i < n implies g[g.len() - n + i] == b[i] by {
                let j = n - i;
                assert(g[g.len() - j] == digits[digits.len() - j]);
                assert(digits[digits.len() - j] == t[t.len() - j]);
            }
            assert(integer_part(t, separator) =~= z + b);
            z
        },
    }
}

/// Whether an edit of a masked number leaves the groups behind it alone: it
/// takes out no point that more than three digits follow, unless it puts one
/// in, and where a separator follows, a digit still stands before it.
pub open spec fn keeps_groups(
    separator: Option<char>,
    a: Seq<char>,
    old: Seq<char>,
    new: Seq<char>,
    b: Seq<char>,
) -> bool {
    &&& old.contains('.') && !new.contains('.') ==> b.len() <= 3 || separator is None
    &&& b.len() > 0 && separator == Some(b[0]) ==> exists|k: int|
        0 <= k < (a + new).len() && is_digit(#[trigger] (a + new)[k])
}

proof fn lemma_ends_alike(x: Seq<char>, y: Seq<char>, r: Seq<char>)
    requires
        x + r == y + r,
    ensures
        x == y,
{
    assert((x + r).len() == (y + r).len());
    assert((x + r).take(x.len() as int) =~= x);
    assert((y + r).take(y.len() as int) =~= y);
}

proof fn lemma_integer_chars(p: Seq<char>, separator: Option<char>)
    requires
        number_valid(p, separator),
    ensures
        forall|i: int|
            0 <= i < p.take(dot_index(p)).len() ==> integer_char(
                #[trigger] p.take(dot_index(p))[i],
                i,
                separator,
            ),
{
    lemma_dot_index(p);
    assert forall|i: int| 0 <= i < p.take(dot_index(p)).len() implies integer_char(
        #[trigger] p.take(dot_index(p))[i],
        i,
        separator,
    ) by {
        assert(p.take(dot_index(p))[i] == p[i]);
    }
}

/// The premises of what follows: a masked number, and an edit of it that is
/// valid and from which the mask takes nothing.
spec fn fair_edit(
    a: Seq<char>,
    old: Seq<char>,
    new: Seq<char>,
    b: Seq<char>,
    separator: Option<char>,
    fraction: Option<usize>,
) -> bool {
    &&& separates(separator)
    &&& number_masked(a + old + b, separator, fraction) == a + old + b
    &&& number_valid(a + old + b, separator)
    &&& number_valid(a + new + b, separator)
    &&& ungrouped(number_masked(a + new + b, separator, fraction), separator) == ungrouped(
        a + new + b,
        separator,
    )
    &&& keeps_groups(separator, a, old, new, b)
}

/// The integer part of a masked number is grouped.
#[verifier::spinoff_prover]
#[verifier::rlimit(50)]
proof fn lemma_settled_integer(s: Seq<char>, separator: Option<char>, fraction: Option<usize>)
    requires
        separates(separator),
        number_valid(s, separator),
        number_masked(s, separator, fraction) == s,
    ensures
        plain_integer(ungrouped(s.take(dot_index(s)), separator)),
        integer_part(ungrouped(s.take(dot_index(s)), separator), separator) == s.take(
            dot_index(s),
        ),
{
    let e = dot_index(s);
    lemma_valid_masked(s, separator, fraction);
    assert(s.take(e) + s.skip(e) =~= s);
    lemma_ends_alike(
        integer_part(ungrouped(s.take(e), separator), separator),
        s.take(e),
        s.skip(e),
    );
}

proof fn lemma_head(a: Seq<char>, x: Seq<char>, b: Seq<char>, r: int)
    requires
        0 <= r <= b.len(),
    ensures
        (a + x + b).take((a + x + b).len() - r) == a + x + b.take(b.len() - r),
        (a + x + b).skip((a + x + b).len() - b.len()) == b,
{
    assert((a + x + b).take((a + x + b).len() - r) =~= a + x + b.take(b.len() - r));
    assert((a + x + b).skip((a + x + b).len() - b.len()) =~= b);
}

/// The part of what stands behind an edit that is in the integer part.
#[verifier::spinoff_prover]
#[verifier::rlimit(50)]
proof fn lemma_integer_behind(
    a: Seq<char>,
    old: Seq<char>,
    new: Seq<char>,
    b: Seq<char>,
    separator: Option<char>,
    fraction: Option<usize>,
) -> (z: Seq<char>)
    requires
        fair_edit(a, old, new, b, separator, fraction),
        ({
            let s = a + old + b;
            let p = a + new + b;
            &&& p.len() - dot_index(p) < b.len()
            &&& dot_index(p) < p.len() || dot_index(s) == s.len()
        }),
    ensures
        ({
            let p = a + new + b;
            let f = dot_index(p);
            integer_part(ungrouped(p.take(f), separator), separator) == z + b.take(
                b.len() - (p.len() - f),
            )
        }),
{
    let s = a + old + b;
    let p = a + new + b;
    assert(0 <= dot_index(p) <= p.len()) by {
        lemma_dot_index(p);
    }
    let r = p.len() - dot_index(p);
    let b1 = b.take(b.len() - r);
    assert(p.take(dot_index(p)) == a + new + b1) by {
        lemma_head(a, new, b, r);
    }
    assert(s.take(dot_index(s)) == a + old + b1) by {
        lemma_head(a, old, b, r);
        lemma_head(a, new, b, 0);
        lemma_point_stays(s, p, b, separator);
    }
    assert(plain_integer(ungrouped(a + old + b1, separator)) && integer_part(
        ungrouped(a + old + b1, separator),
        separator,
    ) == a + old + b1) by {
        lemma_settled_integer(s, separator, fraction);
    }
    assert(plain_integer(ungrouped(a + new + b1, separator))) by {
        lemma_valid_masked(p, separator, fraction);
    }
    lemma_integer_chars(p, separator);
    assert(b1.len() > 0 && separator == Some(b1[0]) ==> has_digit(a + new)) by {
        if b1.len() > 0 {
            assert(b[0] == b1[0]);
        }
    }
    lemma_integer_edit(a, old, new, b1, separator)
}

/// What stands behind an edit that took out the only point.
#[verifier::spinoff_prover]
#[verifier::rlimit(50)]
proof fn lemma_behind_point(
    a: Seq<char>,
    old: Seq<char>,
    new: Seq<char>,
    b: Seq<char>,
    separator: Option<char>,
    fraction: Option<usize>,
) -> (z: Seq<char>)
    requires
        fair_edit(a, old, new, b, separator, fraction),
        dot_index(a + old + b) < (a + old + b).len(),
        dot_index(a + new + b) == (a + new + b).len(),
    ensures
        integer_part(ungrouped(a + new + b, separator), separator) == z + b,
{
    lemma_point_taken_out(a, old, new, b, separator);
    lemma_ungrouped_free(b, separator);
    lemma_ungrouped_concat(a + new, b, separator);
    lemma_short_tail(
        ungrouped(a + new + b, separator),
        separator,
        b,
        ungrouped(a + new, separator),
    )
}

/// What stands behind an edit of a masked number still ends it.
#[verifier::spinoff_prover]
#[verifier::rlimit(50)]
proof fn lemma_number_tail(
    a: Seq<char>,
    old: Seq<char>,
    new: Seq<char>,
    b: Seq<char>,
    separator: Option<char>,
    fraction: Option<usize>,
) -> (z: Seq<char>)
    requires
        fair_edit(a, old, new, b, separator, fraction),
    ensures
        number_masked(a + new + b, separator, fraction) == z + b,
{
    let s = a + old + b;
    let p = a + new + b;
    let f = dot_index(p);
    assert(0 <= f <= p.len() && number_masked(p, separator, fraction) == integer_part(
        ungrouped(p.take(f), separator),
        separator,
    ) + p.skip(f)) by {
        lemma_valid_masked(p, separator, fraction);
    }
    let rest = p.skip(f);
    let whole = integer_part(ungrouped(p.take(f), separator), separator);
    lemma_parts(p, f);
    if rest.len() >= b.len() {
        lemma_ends(p.take(f), rest, a + new, b);
        lemma_split_end(whole, rest, b)
    } else if rest.len() == 0 && dot_index(s) < s.len() {
        let z = lemma_behind_point(a, old, new, b, separator, fraction);
        lemma_parts(whole, whole.len() as int);
        z
    } else {
        assert(dot_index(s) <= s.len()) by {
            lemma_dot_index(s);
        }
        let z = lemma_integer_behind(a, old, new, b, separator, fraction);
        lemma_ends(a + new, b, p.take(f), rest);
        lemma_join_end(whole, rest, z, b);
        z
    }
}

proof fn lemma_parts(p: Seq<char>, f: int)
    requires
        0 <= f <= p.len(),
    ensures
        p.take(f) + p.skip(f) == p,
        p.skip(f).len() == p.len() - f,
        f == p.len() ==> p.take(f) == p && p.skip(f) == Seq::<char>::empty(),
        p + Seq::<char>::empty() == p,
{
    assert(p.take(f) + p.skip(f) =~= p);
    assert(p + Seq::<char>::empty() =~= p);
    if f == p.len() {
        assert(p.take(f) =~= p);
        assert(p.skip(f) =~= Seq::<char>::empty());
    }
}

proof fn lemma_split_end(whole: Seq<char>, rest: Seq<char>, b: Seq<char>) -> (z: Seq<char>)
    requires
        b.len() <= rest.len(),
        rest.skip(rest.len() - b.len()) == b,
    ensures
        whole + rest == z + b,
{
    let y = rest.take(rest.len() - b.len());
    assert(rest =~= y + b);
    assert(whole + rest =~= whole + y + b);
    whole + y
}

proof fn lemma_join_end(whole: Seq<char>, rest: Seq<char>, z: Seq<char>, b: Seq<char>)
    requires
        rest.len() <= b.len(),
        b.skip(b.len() - rest.len()) == rest,
        whole == z + b.take(b.len() - rest.len()),
    ensures
        whole + rest == z + b,
{
    let b1 = b.take(b.len() - rest.len());
    assert(b1 + rest =~= b);
    assert(whole + rest =~= z + (b1 + rest));
}

/// An edit before digits and separators of an integer leaves them at its end.
#[verifier::spinoff_prover]
#[verifier::rlimit(50)]
proof fn lemma_integer_edit(
    a: Seq<char>,
    old: Seq<char>,
    new: Seq<char>,
    b: Seq<char>,
    separator: Option<char>,
) -> (z: Seq<char>)
    requires
        separates(separator),
        plain_integer(ungrouped(a + old + b, separator)),
        integer_part(ungrouped(a + old + b, separator), separator) == a + old + b,
        plain_integer(ungrouped(a + new + b, separator)),
        forall|i: int|
            0 <= i < (a + new + b).len() ==> integer_char(
                #[trigger] (a + new + b)[i],
                i,
                separator,
            ),
        b.len() > 0 && separator == Some(b[0]) ==> has_digit(a + new),
    ensures
        integer_part(ungrouped(a + new + b, separator), separator) == z + b,
{
    let head = ungrouped(a + old + b, separator);
    let other = ungrouped(a + new + b, separator);
    let u = ungrouped(a + new, separator);
    lemma_ungrouped_concat(a + new, b, separator);
    let g = grouped(head.skip(sign_of(head).len() as int), separator);
    if b.len() <= g.len() {
        if b.len() > 0 && separator == Some(b[0]) {
            lemma_digit_kept(a + new, separator);
        }
        lemma_integer_tail(head, other, separator, a + old, b, u)
    } else {
        let whole = a + old + b;
        assert(whole == sign_of(head) + g);
        assert(sign_of(head).len() == 1);
        assert(a.len() == 0 && old.len() == 0);
        assert(whole[0] == sign_of(head)[0]);
        assert(whole[0] == b[0]);
        assert((a + new + b)[new.len() as int] == b[0]);
        assert(integer_char(b[0], new.len() as int, separator));
        assert(new.len() == 0);
        assert(a + new + b =~= whole);
        assert(Seq::<char>::empty() + b =~= whole);
        Seq::empty()
    }
}

/// Where the point of a valid number stands behind the edit, or there is
/// none, it is at the same distance from the end before and after.
#[verifier::spinoff_prover]
#[verifier::rlimit(50)]
proof fn lemma_point_stays(s: Seq<char>, p: Seq<char>, b: Seq<char>, separator: Option<char>)
    requires
        separates(separator),
        number_valid(s, separator),
        b.len() <= s.len(),
        b.len() <= p.len(),
        s.skip(s.len() - b.len()) == b,
        p.skip(p.len() - b.len()) == b,
        p.len() - dot_index(p) < b.len(),
        dot_index(p) < p.len() || dot_index(s) == s.len(),
    ensures
        s.len() - dot_index(s) == p.len() - dot_index(p),
{
    lemma_dot_index(s);
    lemma_dot_index(p);
    let f = dot_index(p);
    let r = p.len() - f;
    if r > 0 {
        assert(b[b.len() - r] == p[f]);
        assert(s[s.len() - r] == b[b.len() - r]);
        if dot_index(s) < s.len() - r {
            assert(is_digit(s[s.len() - r]));
        }
    }
}

/// Where the only point was taken out, digits alone stand behind.
#[verifier::spinoff_prover]
#[verifier::rlimit(50)]
proof fn lemma_point_taken_out(
    a: Seq<char>,
    old: Seq<char>,
    new: Seq<char>,
    b: Seq<char>,
    separator: Option<char>,
)
    requires
        separates(separator),
        number_valid(a + old + b, separator),
        dot_index(a + old + b) < (a + old + b).len(),
        dot_index(a + new + b) == (a + new + b).len(),
    ensures
        old.contains('.'),
        !new.contains('.'),
        forall|i: int| 0 <= i < b.len() ==> is_digit(#[trigger] b[i]) && separator != Some(b[i]),
{
    let s = a + old + b;
    let p = a + new + b;
    let e = dot_index(s);
    lemma_dot_index(s);
    lemma_dot_index(p);
    if e < a.len() {
        assert(p[e] == s[e]);
    }
    if e >= a.len() + old.len() {
        assert(p[e - old.len() + new.len()] == s[e]);
    }
    assert(old[e - a.len()] == '.');
    if new.contains('.') {
        let k = choose|k: int| 0 <= k < new.len() && new[k] == '.';
        assert(p[a.len() + k] == '.');
    }
    assert forall|i: int| 0 <= i < b.len() implies is_digit(#[trigger] b[i]) && separator != Some(
        b[i],
    ) by {
        assert(is_digit(s[a.len() + old.len() + i]));
    }
}

/// Whether an edit of a masked number is let in and loses nothing: the number
/// was as the mask formats it, what comes of the edit is a number, and the
/// mask keeps all of it.
pub open spec fn keeps_number(
    s: StateView,
    a: Seq<char>,
    old: Seq<char>,
    new: Seq<char>,
    b: Seq<char>,
) -> bool {
    &&& s.single_line()
    &&& s.mask is Number
    &&& separates(s.mask->separator)
    &&& s.text == a + old + b
    &&& s.mask.masked(s.text) == s.text
    &&& s.mask.valid(s.text)
    &&& s.mask.valid(a + new + b)
    &&& s.mask.unmasked(s.mask.masked(a + new + b)) == s.mask.unmasked(a + new + b)
    &&& keeps_groups(s.mask->separator, a, old, new, b)
}

/// Typing into a masked number leaves the cursor right behind what was typed:
/// what stands behind the cursor is what stood behind what was replaced, with
/// its groups, and so it is without them. This is where the mask takes out no
/// more bytes of separators than were put in.
#[verifier::spinoff_prover]
#[verifier::rlimit(50)]
pub proof fn law_typing_into_number_keeps_rest_behind_cursor(
    s: StateView,
    range: Option<Range<usize>>,
    a: Seq<char>,
    old: Seq<char>,
    b: Seq<char>,
    t: Seq<char>,
    v: Verdicts,
)
    requires
        keeps_number(s, a, old, s.normalized(t), b),
        aims_at(s, range, a, old),
        s.editable(),
        !s.rejects(range, t, v),
        byte_len(a) + byte_len(b) <= byte_len(s.replaced(range, t, v).text) <= usize::MAX,
    ensures
        ({
            let after = s.replaced(range, t, v);
            let k = index_at(after.text, after.selected.end as int);
            &&& is_boundary(after.text, after.selected.end as int)
            &&& after.selected.start == after.selected.end
            &&& after.text.skip(k) == b
            &&& s.mask.unmasked(after.text.skip(k)) == s.mask.unmasked(b)
            &&& s.mask.unmasked(after.text.take(k)) == s.mask.unmasked(a + s.normalized(t))
        }),
{
    let new = s.normalized(t);
    let separator = s.mask->separator;
    let z = lemma_number_tail(a, old, new, b, separator, s.mask->fraction);
    law_masked_cursor_keeps_distance_to_end(s, range, a, old, b, t, v);
    let after = s.replaced(range, t, v);
    assert(after.text == z + b);
    lemma_between(z, b);
    assert(after.text.skip(z.len() as int) =~= b);
    assert(after.text.take(z.len() as int) =~= z);
    lemma_ungrouped_concat(z, b, separator);
    lemma_ungrouped_concat(a + new, b, separator);
    lemma_ends_alike(
        ungrouped(z, separator),
        ungrouped(a + new, separator),
        ungrouped(b, separator),
    );
}

// ---------------------------------------------------------------------------
// Typing never loses more than it puts in

/// How many separators the start of a grouped integer has: about one for three digits.
proof fn lemma_separators_at_start(head: Seq<char>, c: char, a: Seq<char>, w: Seq<char>)
    requires
        separates(Some(c)),
        plain_integer(head),
        integer_part(head, Some(c)) == a + w,
    ensures
        ({
            let u = without(a, c);
            let k = u.len() - sign_of(u).len();
            &&& 0 <= k
            &&& u.len() <= a.len()
            &&& a.len() - u.len() <= (k + 2) / 3
            &&& k == 0 ==> a.len() == u.len()
        }),
{
    let sign = sign_of(head);
    let sl = sign.len() as int;
    let digits = head.skip(sl);
    let g = grouped(digits, Some(c));
    let whole = sign + g;
    assert(whole == a + w);
    assert((a + w).take(a.len() as int) =~= a);
    lemma_digits_plain(head, c);
    law_groups_have_three_digits(digits, c);
    if a.len() <= sl {
        assert forall|i: int| 0 <= i < a.len() implies a[i] != c by {
            assert(a[i] == whole[i]);
        }
        lemma_without_free(a, c);
        assert(!a.contains(c));
        if a.len() == 1 {
            assert(a[0] == whole[0]);
        }
    } else {
        let n = a.len() - sl;
        let x = g.take(n);
        let t = g.len() as int;
        let m = digits.len() as int;
        assert(a =~= sign + x);
        lemma_without_concat(sign, x, c);
        lemma_without_free(sign, c);
        assert(!sign.contains(c));
        lemma_digits_at_end(digits, c, t - n);
        lemma_digits_at_end(digits, c, t);
        assert(g.skip(0) =~= g);
        assert(g =~= x + g.skip(n));
        lemma_without_concat(x, g.skip(n), c);
        let q = (t - n) - (t - n) / 4;
        assert(t - t / 4 == m);
        assert(without(g, c).len() == m);
        let k = without(x, c).len() as int;
        assert(k == m - q);
        let u = without(a, c);
        assert(u =~= sign + without(x, c));
        assert(x[0] == g[t - t] && g[0] == digits[0]) by {
            lemma_place(m, t);
            assert(g[t - t] == digits[0]);
        }
        assert(k >= 1);
        assert(sign_of(u).len() == sl) by {
            if sl == 0 {
                assert(is_digit(digits[0]));
                assert(x =~= seq![x[0]] + x.skip(1));
                lemma_without_concat(seq![x[0]], x.skip(1), c);
                assert(without(seq![x[0]], c) =~= seq![x[0]]) by {
                    reveal_with_fuel(without, 2);
                    assert(seq![x[0]].drop_last() =~= Seq::empty());
                }
                assert(u[0] == x[0]);
            } else {
                assert(u[0] == sign[0]);
            }
        }
        assert(n - k <= (k + 2) / 3);
    }
}

proof fn lemma_digits_plain(head: Seq<char>, c: char)
    requires
        separates(Some(c)),
        plain_integer(head),
    ensures
        ({
            let digits = head.skip(sign_of(head).len() as int);
            &&& forall|k: int| 0 <= k < digits.len() ==> is_digit(#[trigger] digits[k])
            &&& !digits.contains(c)
        }),
{
    let sl = sign_of(head).len() as int;
    let digits = head.skip(sl);
    assert forall|k: int| 0 <= k < digits.len() implies is_digit(#[trigger] digits[k]) by {
        assert(integer_char(head[k + sl], k + sl, None));
    }
    if digits.contains(c) {
        let k = choose|k: int| 0 <= k < digits.len() && digits[k] == c;
        assert(is_digit(digits[k]));
    }
}

/// The length of an integer part of which the first digits are those of `u`.
proof fn lemma_integer_len(other: Seq<char>, c: char, u: Seq<char>, v: Seq<char>)
    requires
        other == u + v,
    ensures
        ({
            let sl = sign_of(other).len() as int;
            let m = other.len() - sl;
            &&& integer_part(other, Some(c)).len() == sl + grouped_len(m)
            &&& 0 <= m
            &&& u.len() > 0 ==> sl == sign_of(u).len()
        }),
{
    let digits = other.skip(sign_of(other).len() as int);
    law_groups_have_three_digits(digits, c);
    if u.len() > 0 {
        assert(other[0] == u[0]);
    }
}

/// The integer part after typing, at least as long as before it was grouped
/// anew, but for as many characters as were typed.
proof fn lemma_loses_no_more(
    a: Seq<char>,
    new: Seq<char>,
    b: Seq<char>,
    c: char,
    n: int,
)
    requires
        separates(Some(c)),
        1 <= n,
        new.len() <= n,
        b.len() > 0 ==> new.len() == n,
        !new.contains(c),
        ({
            let u = without(a, c);
            let k = u.len() - sign_of(u).len();
            &&& 0 <= k
            &&& u.len() <= a.len()
            &&& a.len() - u.len() <= (k + 2) / 3
            &&& k == 0 ==> a.len() == u.len()
        }),
        without(b, c).len() == b.len() - b.len() as int / 4,
    ensures
        (a + new + b).len() <= integer_part(without(a + new + b, c), Some(c)).len() + n,
{
    let u = without(a, c);
    let other = without(a + new + b, c);
    lemma_without_concat(a + new, b, c);
    lemma_without_concat(a, new, c);
    lemma_without_free(new, c);
    let v = new + without(b, c);
    assert(other =~= u + v);
    lemma_integer_len(other, c, u, v);
    let sl = sign_of(other).len() as int;
    let m = other.len() - sl;
    let d = without(b, c).len() as int;
    let sb = b.len() - d;
    assert(grouped_len(m) >= m);
}

proof fn lemma_typing_keeps_length(
    a: Seq<char>,
    old: Seq<char>,
    new: Seq<char>,
    b: Seq<char>,
    c: char,
    fraction: Option<usize>,
)
    requires
        fair_edit(a, old, new, b, Some(c), fraction),
        new.len() > 0,
        !new.contains(c),
    ensures
        a.len() + b.len() <= number_masked(a + new + b, Some(c), fraction).len(),
{
    let s = a + old + b;
    let p = a + new + b;
    let e = dot_index(s);
    let f = dot_index(p);
    lemma_dot_index(s);
    lemma_dot_index(p);
    lemma_valid_masked(p, Some(c), fraction);
    lemma_settled_integer(s, Some(c), fraction);
    let head = without(s.take(e), c);
    let r = p.len() - f;
    if e < a.len() {
        assert(p[e] == s[e]);
        assert forall|i: int| 0 <= i < e implies p[i] != '.' by {
            assert(p[i] == s[i]);
        }
        assert(f == e);
        assert(p.take(f) =~= s.take(e));
    } else {
        assert(s.take(e) =~= a + s.take(e).skip(a.len() as int));
        lemma_separators_at_start(head, c, a, s.take(e).skip(a.len() as int));
        let none = Seq::<char>::empty();
        if r >= b.len() {
            assert(f >= a.len()) by {
                if f < a.len() {
                    assert(s[f] == p[f]);
                }
            }
            let x = new.take(f - a.len());
            assert(p.take(f) =~= a + x + none);
            assert(!x.contains(c)) by {
                if x.contains(c) {
                    let k = choose|k: int| 0 <= k < x.len() && x[k] == c;
                    assert(new[k] == c);
                }
            }
            assert(without(none, c).len() == 0);
            lemma_loses_no_more(a, x, none, c, new.len() as int);
        } else {
            let b1 = b.take(b.len() - r);
            lemma_head(a, new, b, r);
            lemma_tail_digits(a, old, new, b, c, fraction);
            lemma_loses_no_more(a, new, b1, c, new.len() as int);
        }
    }
}

/// How many digits stand behind an edit, up to the point.
proof fn lemma_tail_digits(
    a: Seq<char>,
    old: Seq<char>,
    new: Seq<char>,
    b: Seq<char>,
    c: char,
    fraction: Option<usize>,
)
    requires
        fair_edit(a, old, new, b, Some(c), fraction),
        new.len() > 0,
        (a + new + b).len() - dot_index(a + new + b) < b.len(),
    ensures
        ({
            let p = a + new + b;
            let b1 = b.take(b.len() - (p.len() - dot_index(p)));
            without(b1, c).len() == b1.len() - b1.len() as int / 4
        }),
{
    let s = a + old + b;
    let p = a + new + b;
    let e = dot_index(s);
    let f = dot_index(p);
    lemma_dot_index(s);
    lemma_dot_index(p);
    let r = p.len() - f;
    let b1 = b.take(b.len() - r);
    if r == 0 && e < s.len() {
        lemma_point_taken_out(a, old, new, b, Some(c));
        lemma_ungrouped_free(b, Some(c));
        assert(b1 =~= b);
    } else {
        lemma_head(a, old, b, r);
        lemma_head(a, new, b, r);
        lemma_point_stays(s, p, b, Some(c));
        lemma_settled_integer(s, Some(c), fraction);
        lemma_integer_chars(p, Some(c));
        let head = without(s.take(e), c);
        let sign = sign_of(head);
        let digits = head.skip(sign.len() as int);
        let g = grouped(digits, Some(c));
        lemma_digits_plain(head, c);
        law_groups_have_three_digits(digits, c);
        assert(sign + g == a + old + b1);
        if b1.len() <= g.len() {
            lemma_ends(sign, g, a + old, b1);
            lemma_digits_at_end(digits, c, b1.len() as int);
        } else {
            assert((sign + g).len() == (a + old + b1).len());
            assert(a.len() == 0 && old.len() == 0);
            assert((a + old + b1)[0] == b1[0]);
            assert((sign + g)[0] == sign[0]);
            assert(p.take(f)[new.len() as int] == b1[0]) by {
                assert(p.take(f) == a + new + b1);
            }
            assert(integer_char(b1[0], new.len() as int, Some(c)));
            assert(false);
        }
    }
}

proof fn lemma_one_byte_each(s: Seq<char>)
    requires
        forall|i: int| 0 <= i < s.len() ==> width(Unit::Utf8, #[trigger] s[i]) == 1,
    ensures
        byte_len(s) == s.len(),
    decreases s.len(),
{
    if s.len() > 0 {
        let rest = s.drop_last();
        assert forall|i: int| 0 <= i < rest.len() implies width(Unit::Utf8, #[trigger] rest[i])
            == 1 by {
            assert(rest[i] == s[i]);
        }
        lemma_one_byte_each(rest);
        assert(width(Unit::Utf8, s[s.len() - 1]) == 1);
    }
}

proof fn lemma_number_bytes(s: Seq<char>, separator: Option<char>)
    requires
        number_valid(s, separator),
        separator matches Some(c) ==> width(Unit::Utf8, c) == 1,
    ensures
        forall|i: int| 0 <= i < s.len() ==> width(Unit::Utf8, #[trigger] s[i]) == 1,
        byte_len(s) == s.len(),
{
    lemma_dot_index(s);
    let d = dot_index(s);
    assert forall|i: int| 0 <= i < s.len() implies width(Unit::Utf8, #[trigger] s[i]) == 1 by {
        if i < d {
            assert(integer_char(s[i], i, separator));
        } else if i > d {
            assert(is_digit(s[i]));
        }
    }
    lemma_one_byte_each(s);
}

/// Typing something that is no separator into a masked number leaves the
/// cursor right behind it, wherever it was typed: what stands behind the
/// cursor is what stood behind what was replaced. Separators are of one byte,
/// as the comma is; where they are longer, regrouping can take out more bytes
/// than were typed.
#[verifier::spinoff_prover]
#[verifier::rlimit(50)]
pub proof fn law_typed_into_number(
    s: StateView,
    range: Option<Range<usize>>,
    a: Seq<char>,
    old: Seq<char>,
    b: Seq<char>,
    t: Seq<char>,
    v: Verdicts,
)
    requires
        keeps_number(s, a, old, s.normalized(t), b),
        aims_at(s, range, a, old),
        s.editable(),
        !s.rejects(range, t, v),
        s.normalized(t).len() > 0,
        s.mask->separator matches Some(c) ==> !s.normalized(t).contains(c) && width(
            Unit::Utf8,
            c,
        ) == 1,
        byte_len(s.replaced(range, t, v).text) <= usize::MAX,
    ensures
        ({
            let after = s.replaced(range, t, v);
            let k = index_at(after.text, after.selected.end as int);
            &&& is_boundary(after.text, after.selected.end as int)
            &&& after.selected.start == after.selected.end
            &&& after.text.skip(k) == b
            &&& s.mask.unmasked(after.text.skip(k)) == s.mask.unmasked(b)
            &&& s.mask.unmasked(after.text.take(k)) == s.mask.unmasked(a + s.normalized(t))
        }),
{
    let new = s.normalized(t);
    let separator = s.mask->separator;
    let fraction = s.mask->fraction;
    let p = a + new + b;
    let text = number_masked(p, separator, fraction);
    law_masked_cursor_keeps_distance_to_end(s, range, a, old, b, t, v);
    assert(a.len() + b.len() <= text.len()) by {
        match separator {
            Some(c) => lemma_typing_keeps_length(a, old, new, b, c, fraction),
            None => {
                assert(text == p);
            },
        }
    }
    crate::mask_pattern::law_masked_number_is_valid(p, separator, fraction);
    lemma_number_bytes(text, separator);
    lemma_number_bytes(p, separator);
    assert forall|i: int| 0 <= i < a.len() implies width(Unit::Utf8, #[trigger] a[i]) == 1 by {
        assert(p[i] == a[i]);
    }
    assert forall|i: int| 0 <= i < b.len() implies width(Unit::Utf8, #[trigger] b[i]) == 1 by {
        assert(p[(a + new).len() + i] == b[i]);
    }
    lemma_one_byte_each(a);
    lemma_one_byte_each(b);
    law_typing_into_number_keeps_rest_behind_cursor(s, range, a, old, b, t, v);
}

/// A value that is set in a masked input is formatted by the mask.
pub proof fn law_masked_value_is_formatted(s: StateView, t: Seq<char>, v: Verdicts)
    requires
        s.single_line(),
        !(s.mask is Plain),
        s.validate is None,
        s.pattern is None,
        s.mask.valid(s.normalized(t)),
        s.fits(t),
    ensures
        s.with_value(t, v).text == s.mask.masked(s.normalized(t)),
        s.with_all_replaced(t, v).text == s.mask.masked(s.normalized(t)),
{
    lemma_masked_rewrite(s, t, v);
    lemma_masked_rewrite(s.value_base(), t, v);
}

proof fn lemma_masked_rewrite(s: StateView, t: Seq<char>, v: Verdicts)
    requires
        s.single_line(),
        !(s.mask is Plain),
        s.validate is None,
        s.pattern is None,
        s.mask.valid(s.normalized(t)),
        s.fits(t),
    ensures
        s.rewritten(t, v).text == s.mask.masked(s.normalized(t)),
{
    let none = Seq::<char>::empty();
    let q = s.announced().silenced(true);
    assert(none + s.text + none =~= s.text);
    assert(none + s.text =~= s.text);
    assert(byte_len(none) == 0 && crate::text::utf16_len(none) == 0);
    crate::text::lemma_utf16_narrower(s.text);
    let range = Some(s.all_utf16());
    assert(aims_at(q, range, none, s.text));
    let new = s.normalized(t);
    assert(q.normalized(t) == new);
    lemma_aimed(q, range, none, s.text, none, new);
    assert(none + new + none =~= new);
    assert(q.edit(range, t).pending == new);
    assert(!q.rejects(range, t, v));
    assert(q.replaced(range, t, v).text == s.mask.masked(new)) by {
        reveal(StateView::replaced);
    }
}

/// A number that is brought into its bounds is replaced by the bound, which
/// is formatted as if it had been typed; the cursor is behind it. A bound
/// that is no valid text is not put in.
pub proof fn law_numbers_are_clamped(s: StateView, t: Seq<char>, v: Verdict, vs: Verdicts)
    requires
        s.single_line(),
        s.mask is Number,
        s.editable(),
        s.validate is None,
        s.pattern is None,
        s.fits(t),
        byte_len(s.text) <= usize::MAX,
    ensures
        !s.valid(t, v) ==> s.clamped(t, v, vs) == s,
        s.valid(t, v) && s.mask.valid(s.normalized(t)) ==> s.clamped(t, v, vs).text
            == s.mask.masked(s.normalized(t)),
{
    if s.valid(t, v) && s.mask.valid(s.normalized(t)) {
        let none = Seq::<char>::empty();
        let q = s.silenced(true);
        assert(none + s.text + none =~= s.text);
        assert(none + s.text =~= s.text);
        assert(byte_len(none) == 0 && crate::text::utf16_len(none) == 0);
        crate::text::lemma_utf16_narrower(s.text);
        let range = Some(s.all_range_utf16());
        lemma_between(none, s.text);
        lemma_between(s.text, none);
        assert(s.text + none =~= s.text);
        crate::place_laws::law_units_agree(none, s.text);
        crate::place_laws::law_units_agree(s.text, none);
        assert(aims_at(q, range, none, s.text));
        let new = s.normalized(t);
        assert(q.normalized(t) == new);
        lemma_aimed(q, range, none, s.text, none, new);
        assert(none + new + none =~= new);
        assert(q.edit(range, t).pending == new);
        assert(!q.rejects(range, t, vs));
        assert(q.replaced(range, t, vs).text == s.mask.masked(new)) by {
            reveal(StateView::replaced);
        }
    }
}

} // verus!
