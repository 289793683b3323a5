//! Laws of the operations on texts.

use vstd::prelude::*;

use crate::text;

verus! {

/// Whether a text is made of spaces.
pub open spec fn blank(s: Seq<char>) -> bool {
    forall|i: int| 0 <= i < s.len() ==> text::is_space(#[trigger] s[i])
}

proof fn lemma_start(s: Seq<char>) -> (n: int)
    ensures
        0 <= n <= s.len(),
        text::trimmed_start(s) == s.skip(n),
        blank(s.take(n)),
        n < s.len() ==> !text::is_space(s[n]),
    decreases s.len(),
{
    if s.len() > 0 && text::is_space(s[0]) {
        let rest = s.skip(1);
        let n = lemma_start(rest);
        assert(rest.skip(n) =~= s.skip(n + 1));
        assert forall|i: int| 0 <= i < n + 1 implies text::is_space(#[trigger] s.take(n + 1)[i]) by {
            if i > 0 {
                assert(rest.take(n)[i - 1] == s[i]);
            }
        }
        n + 1
    } else {
        assert(s.skip(0) =~= s);
        0
    }
}

proof fn lemma_end(s: Seq<char>) -> (n: int)
    ensures
        0 <= n <= s.len(),
        text::trimmed_end(s) == s.take(n),
        blank(s.skip(n)),
        n > 0 ==> !text::is_space(s[n - 1]),
    decreases s.len(),
{
    if s.len() > 0 && text::is_space(s.last()) {
        let rest = s.drop_last();
        let n = lemma_end(rest);
        assert(rest.take(n) =~= s.take(n));
        assert forall|i: int| 0 <= i < s.skip(n).len() implies text::is_space(
            #[trigger] s.skip(n)[i],
        ) by {
            if n + i < rest.len() {
                assert(rest.skip(n)[i] == s[n + i]);
            }
        }
        n
    } else {
        assert(s.take(s.len() as int) =~= s);
        s.len() as int
    }
}

/// Trimming takes away spaces at both ends and nothing else: what is left starts and ends with
/// something, and what was taken is blank.
pub proof fn law_trimming_takes_spaces_at_the_ends(s: Seq<char>)
    ensures
        exists|i: int, j: int|
            0 <= i <= j <= s.len() && text::trimmed(s) == #[trigger] s.subrange(i, j) && blank(
                s.take(i),
            ) && blank(s.skip(j)),
        text::trimmed(s).len() > 0 ==> !text::is_space(text::trimmed(s)[0]) && !text::is_space(
            text::trimmed(s).last(),
        ),
        blank(s) <==> text::trimmed(s).len() == 0,
        exists|n: int|
            0 <= n <= s.len() && text::trimmed_start(s) == #[trigger] s.skip(n) && blank(s.take(n)),
        text::trimmed_start(s).len() > 0 ==> !text::is_space(text::trimmed_start(s)[0]),
{
    let n = lemma_start(s);
    let t = text::trimmed_start(s);
    let k = lemma_end(t);
    assert(t.take(k) =~= s.subrange(n, n + k));
    assert(blank(s.skip(n + k))) by {
        assert forall|i: int| 0 <= i < s.skip(n + k).len() implies text::is_space(
            #[trigger] s.skip(n + k)[i],
        ) by {
            assert(t.skip(k)[i] == s[n + k + i]);
        }
    }
    assert(text::trimmed(s) == s.subrange(n, n + k));
    if blank(s) {
        if n < s.len() {
            assert(text::is_space(s[n]));
        }
    }
    if text::trimmed(s).len() == 0 {
        assert forall|i: int| 0 <= i < s.len() implies text::is_space(#[trigger] s[i]) by {
            if i < n {
                assert(s.take(n)[i] == s[i]);
            } else {
                assert(s.skip(n + k)[i - n - k] == s[i]);
            }
        }
    }
}

/// Spaces are what separates words: blanks, tabs and the ends of lines among them, letters, digits
/// and the signs of commands not.
pub proof fn law_letters_are_no_spaces(c: char)
    ensures
        text::is_space(' ') && text::is_space('\t') && text::is_space('\n') && text::is_space('\r'),
        'a' <= c <= 'z' || 'A' <= c <= 'Z' || '0' <= c <= '9' || c == '-' || c == '_' || c == '/'
            || c == '.' || c == ':' ==> !text::is_space(c),
{
}

/// Joining is the same in one go as piece by piece.
pub proof fn law_joining_goes_piece_by_piece(
    a: Seq<Seq<char>>,
    b: Seq<Seq<char>>,
    sep: Seq<char>,
)
    requires
        a.len() > 0,
        b.len() > 0,
    ensures
        text::joined(a + b, sep) == text::joined(a, sep) + sep + text::joined(b, sep),
        text::joined(Seq::empty(), sep).len() == 0,
        a.len() == 1 ==> text::joined(a, sep) == a[0],
    decreases b.len(),
{
    let whole = text::joined(a + b, sep);
    assert((a + b).drop_last() =~= a + b.drop_last());
    if b.len() == 1 {
        assert(b.drop_last() =~= Seq::empty());
        assert(a + b.drop_last() =~= a);
    } else {
        law_joining_goes_piece_by_piece(a, b.drop_last(), sep);
        assert(whole =~= text::joined(a, sep) + sep + text::joined(b, sep));
    }
}

proof fn lemma_index(s: Seq<char>, c: char, from: int)
    requires
        0 <= from <= s.len(),
    ensures
        from <= text::char_index(s, c, from) <= s.len(),
        text::char_index(s, c, from) < s.len() ==> s[text::char_index(s, c, from)] == c,
        forall|i: int| from <= i < text::char_index(s, c, from) ==> #[trigger] s[i] != c,
    decreases s.len() - from,
{
    if from < s.len() && s[from] != c {
        lemma_index(s, c, from + 1);
    }
}

/// Splitting is undone by joining, and no piece holds what it was split on.
pub proof fn law_splitting_is_undone_by_joining(s: Seq<char>, sep: char)
    ensures
        text::split_on(s, sep).len() > 0,
        text::joined(text::split_on(s, sep), seq![sep]) == s,
        forall|k: int|
            0 <= k < text::split_on(s, sep).len() ==> !(#[trigger] text::split_on(
                s,
                sep,
            )[k]).contains(sep),
    decreases s.len(),
{
    lemma_index(s, sep, 0);
    let i = text::char_index(s, sep, 0);
    let all = text::split_on(s, sep);
    if i < s.len() {
        let rest = text::split_on(s.skip(i + 1), sep);
        law_splitting_is_undone_by_joining(s.skip(i + 1), sep);
        law_joining_goes_piece_by_piece(seq![s.take(i)], rest, seq![sep]);
        assert(s =~= s.take(i) + seq![sep] + s.skip(i + 1));
        assert(!s.take(i).contains(sep)) by {
            if s.take(i).contains(sep) {
                let k = choose|k: int| 0 <= k < s.take(i).len() && s.take(i)[k] == sep;
                assert(s[k] == sep);
            }
        }
        assert forall|k: int| 0 <= k < all.len() implies !(#[trigger] all[k]).contains(sep) by {
            if k > 0 {
                assert(all[k] == rest[k - 1]);
            }
        }
    } else {
        assert(!s.contains(sep)) by {
            if s.contains(sep) {
                let k = choose|k: int| 0 <= k < s.len() && s[k] == sep;
                assert(s[k] == sep);
            }
        }
    }
}

/// The lines of a text hold no line ends. A text without carriage returns is its lines joined by
/// line ends, but for one line end behind the last of them.
pub proof fn law_lines_make_up_the_text(s: Seq<char>)
    ensures
        forall|k: int|
            0 <= k < text::lines_of(s).len() ==> !(#[trigger] text::lines_of(s)[k]).contains('\n'),
        s.len() == 0 <==> text::lines_of(s).len() == 0,
        !s.contains('\r') && s.len() > 0 ==> s == text::joined(text::lines_of(s), seq!['\n']) + (
        if s.last() == '\n' {
            seq!['\n']
        } else {
            Seq::empty()
        }),
    decreases s.len(),
{
    lemma_index(s, '\n', 0);
    let i = text::char_index(s, '\n', 0);
    let all = text::lines_of(s);
    if s.len() == 0 {
    } else if i < s.len() {
        let tail = s.skip(i + 1);
        let rest = text::lines_of(tail);
        let head = text::without_carriage_return(s.take(i));
        law_lines_make_up_the_text(tail);
        assert(!head.contains('\n')) by {
            if head.contains('\n') {
                let k = choose|k: int| 0 <= k < head.len() && head[k] == '\n';
                assert(s[k] == '\n');
            }
        }
        assert forall|k: int| 0 <= k < all.len() implies !(#[trigger] all[k]).contains('\n') by {
            if k > 0 {
                assert(all[k] == rest[k - 1]);
            }
        }
        if !s.contains('\r') {
            if i > 0 {
                assert(s[i - 1] != '\r');
            }
            assert(head == s.take(i));
            assert(!tail.contains('\r')) by {
                if tail.contains('\r') {
                    let k = choose|k: int| 0 <= k < tail.len() && tail[k] == '\r';
                    assert(s[i + 1 + k] == '\r');
                }
            }
            if tail.len() > 0 {
                law_joining_goes_piece_by_piece(seq![head], rest, seq!['\n']);
                assert(tail.last() == s.last());
                assert(s =~= s.take(i) + seq!['\n'] + tail);
            } else {
                assert(all =~= seq![head]);
                assert(s =~= s.take(i) + seq!['\n']);
            }
        }
    } else {
        assert(!s.contains('\n')) by {
            if s.contains('\n') {
                let k = choose|k: int| 0 <= k < s.len() && s[k] == '\n';
                assert(s[k] == '\n');
            }
        }
        assert(s.last() == s[s.len() - 1]);
        assert(s + Seq::<char>::empty() =~= s);
    }
}

/// The characters of a text that are no spaces.
pub open spec fn ink(s: Seq<char>) -> Seq<char>
    decreases s.len(),
{
    if s.len() == 0 {
        Seq::empty()
    } else if text::is_space(s[0]) {
        ink(s.skip(1))
    } else {
        seq![s[0]] + ink(s.skip(1))
    }
}

proof fn lemma_ink_skips_start(s: Seq<char>)
    ensures
        ink(text::trimmed_start(s)) == ink(s),
    decreases s.len(),
{
    if s.len() > 0 && text::is_space(s[0]) {
        lemma_ink_skips_start(s.skip(1));
    }
}

proof fn lemma_ink_word(s: Seq<char>)
    ensures
        0 <= text::word_len(s) <= s.len(),
        forall|i: int| 0 <= i < text::word_len(s) ==> !text::is_space(#[trigger] s[i]),
        ink(s) == s.take(text::word_len(s)) + ink(s.skip(text::word_len(s))),
    decreases s.len(),
{
    let n = text::word_len(s);
    if s.len() > 0 && !text::is_space(s[0]) {
        let rest = s.skip(1);
        lemma_ink_word(rest);
        assert forall|i: int| 0 <= i < n implies !text::is_space(#[trigger] s[i]) by {
            if i > 0 {
                assert(rest[i - 1] == s[i]);
            }
        }
        assert(rest.skip(n - 1) =~= s.skip(n));
        assert(seq![s[0]] + rest.take(n - 1) =~= s.take(n));
        assert(ink(s) =~= s.take(n) + ink(s.skip(n)));
    } else {
        assert(s.skip(0) =~= s);
        assert(s.take(0) + ink(s) =~= ink(s));
    }
}

/// The words of a text hold its characters but the spaces, in order; none of them is empty, and
/// none holds a space. Collapsing a text joins its words by one blank each.
pub proof fn law_words_hold_everything_but_spaces(s: Seq<char>)
    ensures
        text::joined(text::words_of(s), Seq::empty()) == ink(s),
        forall|k: int|
            0 <= k < text::words_of(s).len() ==> (#[trigger] text::words_of(s)[k]).len() > 0,
        forall|k: int, i: int|
            0 <= k < text::words_of(s).len() && 0 <= i < text::words_of(s)[k].len()
                ==> !text::is_space(#[trigger] text::words_of(s)[k][i]),
        text::collapsed(s) == text::joined(text::words_of(s), seq![' ']),
    decreases s.len(),
{
    reveal_strlit(" ");
    assert(" "@ =~= seq![' ']);
    let t = text::trimmed_start(s);
    let n = text::word_len(t);
    lemma_ink_skips_start(s);
    text::lemma_trimmed_start_len(s);
    text::lemma_trimmed_start_head(s);
    if t.len() > 0 {
        text::lemma_word_len_bounds(t);
        lemma_ink_word(t);
        let rest = text::words_of(t.skip(n));
        let all = text::words_of(s);
        law_words_hold_everything_but_spaces(t.skip(n));
        if rest.len() > 0 {
            law_joining_goes_piece_by_piece(seq![t.take(n)], rest, Seq::empty());
            assert(t.take(n) + Seq::<char>::empty() + text::joined(rest, Seq::empty()) =~= ink(s));
        } else {
            assert(all =~= seq![t.take(n)]);
            assert(t.take(n) + Seq::<char>::empty() =~= t.take(n));
        }
        assert forall|k: int, i: int|
            0 <= k < all.len() && 0 <= i < all[k].len() implies !text::is_space(
            #[trigger] all[k][i],
        ) by {
            if k > 0 {
                assert(all[k] == rest[k - 1]);
                assert(!text::is_space(rest[k - 1][i]));
            } else {
                assert(all[0][i] == t[i]);
            }
        }
        assert forall|k: int| 0 <= k < all.len() implies (#[trigger] all[k]).len() > 0 by {
            if k > 0 {
                assert(all[k] == rest[k - 1]);
            }
        }
    }
}

/// The number that digits spell.
pub open spec fn spelled(digits: Seq<char>) -> int
    decreases digits.len(),
{
    if digits.len() == 0 {
        0
    } else {
        10 * spelled(digits.drop_last()) + (digits.last() as int - '0' as int)
    }
}

/// A number is written by its digits: they spell it, and it does not start with a zero unless it
/// is one.
pub proof fn law_digits_spell_the_number(n: nat)
    ensures
        spelled(text::decimal(n)) == n,
        text::decimal(n).len() > 0,
        forall|i: int|
            0 <= i < text::decimal(n).len() ==> '0' <= #[trigger] text::decimal(n)[i] <= '9',
        n > 0 ==> text::decimal(n)[0] != '0',
    decreases n,
{
    let digits = text::decimal(n);
    if n < 10 {
        assert(digits.drop_last() =~= Seq::empty());
        reveal_with_fuel(spelled, 2);
    } else {
        law_digits_spell_the_number(n / 10);
        assert(digits.drop_last() =~= text::decimal(n / 10));
        assert(n == 10 * (n / 10) + n % 10) by (nonlinear_arith);
        assert forall|i: int| 0 <= i < digits.len() implies '0' <= #[trigger] digits[i] <= '9' by {
            if i < digits.len() - 1 {
                assert(text::decimal(n / 10)[i] == digits[i]);
            }
        }
        assert(digits[0] == text::decimal(n / 10)[0]);
    }
}

/// A number below zero is written with a sign before its digits.
pub proof fn law_sign_stands_before_the_digits(n: int)
    ensures
        n >= 0 ==> text::signed_decimal(n) == text::decimal(n as nat),
        n < 0 ==> text::signed_decimal(n)[0] == '-' && text::signed_decimal(n).skip(1)
            == text::decimal((-n) as nat),
{
    reveal_strlit("-");
    if n < 0 {
        assert(text::signed_decimal(n).skip(1) =~= text::decimal((-n) as nat));
    }
}

/// Texts are ordered by the first character in which they differ, and a text comes before every
/// longer one that starts with it.
pub proof fn law_first_difference_orders(
    common: Seq<char>,
    x: char,
    a: Seq<char>,
    y: char,
    b: Seq<char>,
)
    ensures
        x != y ==> (text::comes_before(common + seq![x] + a, common + seq![y] + b) <==> x < y),
        text::comes_before(common, common + seq![y] + b),
        !text::comes_before(common + seq![y] + b, common),
        !text::comes_before(common, common),
    decreases common.len(),
{
    let left = common + seq![x] + a;
    let right = common + seq![y] + b;
    if common.len() > 0 {
        let rest = common.skip(1);
        law_first_difference_orders(rest, x, a, y, b);
        assert(left.skip(1) =~= rest + seq![x] + a);
        assert(right.skip(1) =~= rest + seq![y] + b);
        assert(left[0] == common[0] && right[0] == common[0]);
    } else {
        assert(left[0] == x && right[0] == y);
    }
}

/// Lowering changes the capitals of the alphabet and nothing else.
pub proof fn law_lowering_changes_capitals(s: Seq<char>, i: int)
    requires
        0 <= i < s.len(),
    ensures
        text::lowered(s).len() == s.len(),
        'A' <= s[i] <= 'Z' ==> text::lowered(s)[i] as int - 'a' as int == s[i] as int - 'A' as int,
        !('A' <= s[i] <= 'Z') ==> text::lowered(s)[i] == s[i],
{
}

/// A text holds every text that stands in it, however it is capitalised, and nothing that is
/// longer than itself.
pub proof fn law_text_holds_its_parts(before: Seq<char>, part: Seq<char>, after: Seq<char>, needle: Seq<char>)
    ensures
        text::lowered(part) == text::lowered(needle) ==> text::holds_ignoring_case(
            before + part + after,
            needle,
        ),
        part.len() < needle.len() ==> !text::holds_ignoring_case(part, needle),
{
    let s = before + part + after;
    let i = before.len() as int;
    if text::lowered(part) == text::lowered(needle) {
        assert(text::lowered(part).len() == part.len());
        assert(text::lowered(needle).len() == needle.len());
        assert(s.subrange(i, i + needle.len()) =~= part);
        assert(text::matches_at(s, needle, i));
    }
}

/// A line ends with a line feed, which may follow one carriage return, or with the text; neither is
/// part of it.
pub proof fn law_line_ends_with_a_line_feed(line: Seq<char>, rest: Seq<char>)
    requires
        !line.contains('\n'),
    ensures
        text::lines_of(line + seq!['\r', '\n'] + rest) == seq![line] + text::lines_of(rest),
        line.len() == 0 || line.last() != '\r' ==> text::lines_of(line + seq!['\n'] + rest)
            == seq![line] + text::lines_of(rest),
        line.len() > 0 ==> text::lines_of(line) == seq![line],
{
    let a = line + seq!['\r', '\n'] + rest;
    let b = line + seq!['\n'] + rest;
    let n = line.len() as int;
    lemma_index(a, '\n', 0);
    lemma_index(b, '\n', 0);
    lemma_index(line, '\n', 0);
    let i = text::char_index(a, '\n', 0);
    let j = text::char_index(b, '\n', 0);
    let k = text::char_index(line, '\n', 0);
    assert(a[n] == '\r' && a[n + 1] == '\n' && b[n] == '\n');
    if i < n {
        assert(line[i] == a[i]);
    }
    if j < n {
        assert(line[j] == b[j]);
    }
    if k < n {
        assert(line[k] == '\n');
    }
    assert(a.take(n + 1) =~= line.push('\r'));
    assert(line.push('\r').drop_last() =~= line);
    assert(a.skip(n + 2) =~= rest);
    assert(b.take(n) =~= line);
    assert(b.skip(n + 1) =~= rest);
}

} // verus!
