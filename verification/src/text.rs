//! Character-level text helpers.
//!
//! Text is modelled as a sequence of characters. The executable helpers work on slices of
//! characters, so that positions are counted in characters throughout the library.

use vstd::prelude::*;

verus! {

/// Appends one character: `String::push` leaves the old contents in place and puts `c` last.
pub assume_specification[ String::push ](s: &mut String, c: char)
    ensures
        final(s)@ == old(s)@.push(c),
;

/// The characters with the Unicode property White_Space.
pub open spec fn is_space(c: char) -> bool {
    ||| 0x9 <= c as u32 <= 0xd
    ||| c as u32 == 0x20
    ||| c as u32 == 0x85
    ||| c as u32 == 0xa0
    ||| c as u32 == 0x1680
    ||| 0x2000 <= c as u32 <= 0x200a
    ||| c as u32 == 0x2028
    ||| c as u32 == 0x2029
    ||| c as u32 == 0x202f
    ||| c as u32 == 0x205f
    ||| c as u32 == 0x3000
}

pub fn is_whitespace(c: char) -> (r: bool)
    ensures
        r == is_space(c),
{
    let code: u32 = c as u32;
    (0x9 <= code && code <= 0xd) || code == 0x20 || code == 0x85 || code == 0xa0 || code == 0x1680
        || (0x2000 <= code && code <= 0x200a) || code == 0x2028 || code == 0x2029 || code == 0x202f
        || code == 0x205f || code == 0x3000
}

/// The characters of a string, as a vector.
pub fn chars_of(s: &str) -> (r: Vec<char>)
    ensures
        r@ == s@,
{
    let mut out: Vec<char> = Vec::new();
    for c in iter: s.chars()
        invariant
            out@ == s@.take(iter.index()),
            iter.seq() == s@,
    {
        proof {
            assert(s@.take(iter.index()).push(c) =~= s@.take(iter.index() + 1));
        }
        out.push(c);
    }
    proof {
        assert(s@.take(s@.len() as int) =~= s@);
    }
    out
}

/// The string made of the given characters.
pub fn string_of(chars: &[char]) -> (r: String)
    ensures
        r@ == chars@,
{
    let mut out = String::new();
    let mut i: usize = 0;
    while i < chars.len()
        invariant
            i <= chars@.len(),
            out@ == chars@.take(i as int),
        decreases chars@.len() - i,
    {
        proof {
            assert(chars@.take(i as int).push(chars@[i as int]) =~= chars@.take(i + 1));
        }
        out.push(chars[i]);
        i += 1;
    }
    proof {
        assert(chars@.take(chars@.len() as int) =~= chars@);
    }
    out
}

/// A string of its own with the same characters.
pub fn owned(s: &str) -> (r: String)
    ensures
        r@ == s@,
{
    string_of(chars_of(s).as_slice())
}

/// A copy of an optional string.
pub fn copy_option(value: &Option<String>) -> (r: Option<String>)
    ensures
        r == *value,
{
    match value {
        Some(s) => Some(s.clone()),
        None => None,
    }
}

/// The characters behind an optional string.
pub open spec fn option_view(value: Option<String>) -> Option<Seq<char>> {
    match value {
        Some(s) => Some(s@),
        None => None,
    }
}

pub open spec fn trimmed_start(s: Seq<char>) -> Seq<char>
    decreases s.len(),
{
    if s.len() > 0 && is_space(s[0]) {
        trimmed_start(s.skip(1))
    } else {
        s
    }
}

pub open spec fn trimmed_end(s: Seq<char>) -> Seq<char>
    decreases s.len(),
{
    if s.len() > 0 && is_space(s.last()) {
        trimmed_end(s.drop_last())
    } else {
        s
    }
}

/// The text without the whitespace at both ends.
pub open spec fn trimmed(s: Seq<char>) -> Seq<char> {
    trimmed_end(trimmed_start(s))
}

pub fn trim_start(s: &[char]) -> (r: &[char])
    ensures
        r@ == trimmed_start(s@),
{
    let mut i: usize = 0;
    proof {
        assert(s@.skip(0) =~= s@);
    }
    while i < s.len() && is_whitespace(s[i])
        invariant
            i <= s@.len(),
            trimmed_start(s@.skip(i as int)) == trimmed_start(s@),
        decreases s@.len() - i,
    {
        proof {
            assert(s@.skip(i as int).skip(1) =~= s@.skip(i + 1));
        }
        i += 1;
    }
    proof {
        assert(s@.skip(i as int) =~= s@.subrange(i as int, s@.len() as int));
    }
    vstd::slice::slice_subrange(s, i, s.len())
}

pub fn trim_end(s: &[char]) -> (r: &[char])
    ensures
        r@ == trimmed_end(s@),
{
    let mut n: usize = s.len();
    proof {
        assert(s@.take(n as int) =~= s@);
    }
    while n > 0 && is_whitespace(s[n - 1])
        invariant
            n <= s@.len(),
            trimmed_end(s@.take(n as int)) == trimmed_end(s@),
        decreases n,
    {
        proof {
            assert(s@.take(n as int).drop_last() =~= s@.take(n - 1));
        }
        n -= 1;
    }
    proof {
        assert(s@.take(n as int) =~= s@.subrange(0, n as int));
    }
    vstd::slice::slice_subrange(s, 0, n)
}

pub fn trim(s: &[char]) -> (r: &[char])
    ensures
        r@ == trimmed(s@),
{
    trim_end(trim_start(s))
}

pub proof fn lemma_trimmed_start_len(s: Seq<char>)
    ensures
        trimmed_start(s).len() <= s.len(),
    decreases s.len(),
{
    if s.len() > 0 && is_space(s[0]) {
        lemma_trimmed_start_len(s.skip(1));
    }
}

/// The characters behind each string of a sequence.
pub open spec fn views(v: Seq<String>) -> Seq<Seq<char>> {
    Seq::new(v.len(), |i: int| v[i]@)
}

pub proof fn lemma_views_push(v: Seq<String>, x: String)
    ensures
        views(v.push(x)) == views(v).push(x@),
{
    assert(views(v.push(x)) =~= views(v).push(x@));
}

/// Appends one string to a list.
pub fn push_text(list: &mut Vec<String>, item: String)
    ensures
        views(final(list)@) == views(old(list)@).push(item@),
{
    proof {
        lemma_views_push(list@, item);
    }
    list.push(item);
}

/// Appends a list of strings to another.
pub fn push_texts(list: &mut Vec<String>, more: Vec<String>)
    ensures
        views(final(list)@) == views(old(list)@) + views(more@),
{
    let mut rest = more;
    let ghost before = list@;
    list.append(&mut rest);
    proof {
        assert(views(list@) =~= views(before) + views(more@));
    }
}

/// A copy of a list of strings.
pub fn copy_strings(list: &Vec<String>) -> (r: Vec<String>)
    ensures
        r@ == list@,
{
    let mut out: Vec<String> = Vec::new();
    let mut i: usize = 0;
    while i < list.len()
        invariant
            i <= list@.len(),
            out@ == list@.take(i as int),
        decreases list@.len() - i,
    {
        out.push(list[i].clone());
        proof {
            assert(out@ =~= list@.take(i + 1));
        }
        i += 1;
    }
    proof {
        assert(list@.take(list@.len() as int) =~= list@);
    }
    out
}

/// The first position at or after `from` that holds `c`, or the length of the text.
pub open spec fn char_index(s: Seq<char>, c: char, from: int) -> int
    decreases s.len() - from,
{
    if from >= s.len() {
        s.len() as int
    } else if s[from] == c {
        from
    } else {
        char_index(s, c, from + 1)
    }
}

pub fn index_of_char(s: &[char], c: char, from: usize) -> (r: usize)
    requires
        from <= s@.len(),
    ensures
        r == char_index(s@, c, from as int),
        from <= r <= s@.len(),
{
    let mut i: usize = from;
    while i < s.len() && s[i] != c
        invariant
            from <= i <= s@.len(),
            char_index(s@, c, i as int) == char_index(s@, c, from as int),
        decreases s@.len() - i,
    {
        i += 1;
    }
    i
}

/// The pieces of a text between the occurrences of a separator.
pub open spec fn split_on(s: Seq<char>, sep: char) -> Seq<Seq<char>>
    decreases s.len(),
{
    let i = char_index(s, sep, 0);
    if 0 <= i < s.len() {
        seq![s.take(i)] + split_on(s.skip(i + 1), sep)
    } else {
        seq![s]
    }
}

pub proof fn lemma_char_index_skip(s: Seq<char>, c: char, start: int, from: int)
    requires
        0 <= start,
        0 <= from,
        start + from <= s.len(),
    ensures
        char_index(s.skip(start), c, from) == char_index(s, c, start + from) - start,
    decreases s.len() - start - from,
{
    if start + from < s.len() && s[start + from] != c {
        lemma_char_index_skip(s, c, start, from + 1);
    }
}

pub fn split_char(s: &[char], sep: char) -> (r: Vec<String>)
    ensures
        views(r@) == split_on(s@, sep),
{
    let mut out: Vec<String> = Vec::new();
    let mut cursor: usize = 0;
    proof {
        assert(s@.skip(0) =~= s@);
        assert(views(out@) + split_on(s@, sep) =~= split_on(s@, sep));
    }
    loop
        invariant
            cursor <= s@.len(),
            views(out@) + split_on(s@.skip(cursor as int), sep) == split_on(s@, sep),
        decreases s@.len() - cursor,
    {
        let end = index_of_char(s, sep, cursor);
        proof {
            lemma_char_index_skip(s@, sep, cursor as int, 0);
        }
        let piece = string_of(vstd::slice::slice_subrange(s, cursor, end));
        let ghost before = out@;
        out.push(piece);
        proof {
            lemma_views_push(before, piece);
            let rest = s@.skip(cursor as int);
            assert(rest.take(end - cursor) =~= piece@);
            if end < s@.len() {
                assert(rest.skip(end - cursor + 1) =~= s@.skip(end + 1));
                assert(views(before) + (seq![piece@] + split_on(s@.skip(end + 1), sep))
                    =~= views(out@) + split_on(s@.skip(end + 1), sep));
            } else {
                assert(rest =~= piece@);
                assert(views(before) + seq![piece@] =~= views(out@));
            }
        }
        if end < s.len() {
            cursor = end + 1;
        } else {
            return out;
        }
    }
}

/// A line without the carriage return that may end it.
pub open spec fn without_carriage_return(s: Seq<char>) -> Seq<char> {
    if s.len() > 0 && s.last() == '\r' {
        s.drop_last()
    } else {
        s
    }
}

/// The lines of a text. A line ends at a line feed, which may follow a carriage return; the end
/// of the text closes the last line unless that line is empty.
pub open spec fn lines_of(s: Seq<char>) -> Seq<Seq<char>>
    decreases s.len(),
{
    let i = char_index(s, '\n', 0);
    if s.len() == 0 {
        Seq::empty()
    } else if 0 <= i < s.len() {
        seq![without_carriage_return(s.take(i))] + lines_of(s.skip(i + 1))
    } else {
        seq![s]
    }
}

pub fn lines(s: &[char]) -> (r: Vec<String>)
    ensures
        views(r@) == lines_of(s@),
{
    let mut out: Vec<String> = Vec::new();
    let mut cursor: usize = 0;
    proof {
        assert(s@.skip(0) =~= s@);
        assert(views(out@) + lines_of(s@) =~= lines_of(s@));
    }
    while cursor < s.len()
        invariant
            cursor <= s@.len(),
            views(out@) + lines_of(s@.skip(cursor as int)) == lines_of(s@),
        decreases s@.len() - cursor,
    {
        let end = index_of_char(s, '\n', cursor);
        proof {
            lemma_char_index_skip(s@, '\n', cursor as int, 0);
        }
        let mut stop: usize = end;
        if end < s.len() && end > cursor && s[end - 1] == '\r' {
            stop = end - 1;
        }
        let piece = string_of(vstd::slice::slice_subrange(s, cursor, stop));
        let ghost before = out@;
        out.push(piece);
        let next: usize = if end < s.len() {
            end + 1
        } else {
            end
        };
        proof {
            lemma_views_push(before, piece);
            let rest = s@.skip(cursor as int);
            if end < s@.len() {
                assert(piece@ =~= without_carriage_return(rest.take(end - cursor)));
                assert(rest.skip(end - cursor + 1) =~= s@.skip(end + 1));
                assert(views(before) + (seq![piece@] + lines_of(s@.skip(end + 1)))
                    =~= views(out@) + lines_of(s@.skip(end + 1)));
            } else {
                assert(rest =~= piece@);
                assert(views(before) + seq![piece@] =~= views(out@) + lines_of(s@.skip(
                    next as int,
                )));
            }
        }
        cursor = next;
    }
    proof {
        assert(views(out@) + lines_of(s@.skip(cursor as int)) =~= views(out@));
    }
    out
}

/// The number of leading characters that are not whitespace.
pub open spec fn word_len(s: Seq<char>) -> int
    decreases s.len(),
{
    if s.len() > 0 && !is_space(s[0]) {
        1 + word_len(s.skip(1))
    } else {
        0
    }
}

pub proof fn lemma_word_len_bounds(s: Seq<char>)
    ensures
        0 <= word_len(s) <= s.len(),
        s.len() > 0 && !is_space(s[0]) ==> word_len(s) > 0,
    decreases s.len(),
{
    if s.len() > 0 && !is_space(s[0]) {
        lemma_word_len_bounds(s.skip(1));
    }
}

pub proof fn lemma_trimmed_start_head(s: Seq<char>)
    ensures
        trimmed_start(s).len() > 0 ==> !is_space(trimmed_start(s)[0]),
    decreases s.len(),
{
    if s.len() > 0 && is_space(s[0]) {
        lemma_trimmed_start_head(s.skip(1));
    }
}

/// The maximal runs of characters that are not whitespace.
pub open spec fn words_of(s: Seq<char>) -> Seq<Seq<char>>
    decreases s.len(),
{
    let t = trimmed_start(s);
    let n = word_len(t);
    if t.len() == 0 {
        Seq::empty()
    } else {
        proof {
            lemma_trimmed_start_len(s);
            lemma_trimmed_start_head(s);
            lemma_word_len_bounds(t);
        }
        seq![t.take(n)] + words_of(t.skip(n))
    }
}

fn count_word(s: &[char]) -> (r: usize)
    ensures
        r == word_len(s@),
        r <= s@.len(),
{
    let mut i: usize = 0;
    proof {
        assert(s@.skip(0) =~= s@);
    }
    while i < s.len() && !is_whitespace(s[i])
        invariant
            i <= s@.len(),
            i + word_len(s@.skip(i as int)) == word_len(s@),
        decreases s@.len() - i,
    {
        proof {
            assert(s@.skip(i as int).skip(1) =~= s@.skip(i + 1));
        }
        i += 1;
    }
    i
}

pub fn words(s: &[char]) -> (r: Vec<String>)
    ensures
        views(r@) == words_of(s@),
{
    let mut out: Vec<String> = Vec::new();
    let mut rest: &[char] = trim_start(s);
    proof {
        assert(views(out@) + words_of(s@) =~= words_of(s@));
        lemma_trimmed_start_idempotent(s@);
    }
    while rest.len() > 0
        invariant
            rest@ == trimmed_start(rest@),
            views(out@) + words_of(rest@) == words_of(s@),
        decreases rest@.len(),
    {
        let n = count_word(rest);
        proof {
            lemma_trimmed_start_head(rest@);
            lemma_word_len_bounds(rest@);
        }
        let word = string_of(vstd::slice::slice_subrange(rest, 0, n));
        let tail = vstd::slice::slice_subrange(rest, n, rest.len());
        let ghost before = out@;
        out.push(word);
        let next = trim_start(tail);
        proof {
            lemma_views_push(before, word);
            assert(word@ =~= rest@.take(n as int));
            assert(tail@ =~= rest@.skip(n as int));
            lemma_trimmed_start_idempotent(tail@);
            lemma_trimmed_start_len(tail@);
            assert(views(before) + (seq![word@] + words_of(tail@)) =~= views(out@) + words_of(
                tail@,
            ));
        }
        rest = next;
    }
    proof {
        assert(views(out@) + words_of(rest@) =~= views(out@));
    }
    out
}

pub proof fn lemma_trimmed_start_idempotent(s: Seq<char>)
    ensures
        trimmed_start(trimmed_start(s)) == trimmed_start(s),
        words_of(trimmed_start(s)) == words_of(s),
    decreases s.len(),
{
    if s.len() > 0 && is_space(s[0]) {
        lemma_trimmed_start_idempotent(s.skip(1));
    }
}

/// The parts with a separator between each two.
pub open spec fn joined(parts: Seq<Seq<char>>, sep: Seq<char>) -> Seq<char>
    decreases parts.len(),
{
    if parts.len() == 0 {
        Seq::empty()
    } else if parts.len() == 1 {
        parts[0]
    } else {
        joined(parts.drop_last(), sep) + sep + parts.last()
    }
}

pub fn join(parts: &Vec<String>, sep: &str) -> (r: String)
    ensures
        r@ == joined(views(parts@), sep@),
{
    proof {
        assert(views(parts@).take(parts@.len() as int) =~= views(parts@));
    }
    join_first(parts, parts.len(), sep)
}

/// Joins the first `count` parts.
pub fn join_first(parts: &Vec<String>, count: usize, sep: &str) -> (r: String)
    requires
        count <= parts@.len(),
    ensures
        r@ == joined(views(parts@).take(count as int), sep@),
{
    let mut out = String::new();
    let mut i: usize = 0;
    while i < count
        invariant
            i <= count <= parts@.len(),
            out@ == joined(views(parts@).take(i as int), sep@),
        decreases count - i,
    {
        proof {
            let upto = views(parts@).take(i + 1);
            assert(upto.drop_last() =~= views(parts@).take(i as int));
            assert(upto.last() == parts@[i as int]@);
        }
        if i > 0 {
            out.append(sep);
        }
        out.append(parts[i].as_str());
        proof {
            if i == 0 {
                assert(out@ =~= parts@[0]@);
            }
        }
        i += 1;
    }
    out
}

/// What the first parts make up comes first in what all of them make up.
pub proof fn lemma_joined_prefix_of(parts: Seq<Seq<char>>, count: int)
    requires
        0 <= count <= parts.len(),
    ensures
        ({
            let head = joined(parts.take(count), Seq::empty());
            let all = joined(parts, Seq::empty());
            head.len() <= all.len() && head == all.take(head.len() as int)
        }),
    decreases parts.len(),
{
    let head = joined(parts.take(count), Seq::<char>::empty());
    let all = joined(parts, Seq::<char>::empty());
    if count == parts.len() {
        assert(parts.take(count) =~= parts);
        assert(head =~= all.take(head.len() as int));
    } else {
        let shorter = parts.drop_last();
        assert(shorter.take(count) =~= parts.take(count));
        lemma_joined_prefix_of(shorter, count);
        if parts.len() == 1 {
            assert(head =~= Seq::<char>::empty());
        }
        assert(head =~= all.take(head.len() as int));
    }
}

/// The decimal digits of a number, without leading zeros.
pub open spec fn decimal(n: nat) -> Seq<char>
    decreases n,
{
    if n < 10 {
        seq![digit_char(n)]
    } else {
        decimal(n / 10).push(digit_char(n % 10))
    }
}

pub open spec fn digit_char(d: nat) -> char {
    if d == 0 {
        '0'
    } else if d == 1 {
        '1'
    } else if d == 2 {
        '2'
    } else if d == 3 {
        '3'
    } else if d == 4 {
        '4'
    } else if d == 5 {
        '5'
    } else if d == 6 {
        '6'
    } else if d == 7 {
        '7'
    } else if d == 8 {
        '8'
    } else {
        '9'
    }
}

pub open spec fn power_of_ten(k: nat) -> nat
    decreases k,
{
    if k == 0 {
        1
    } else {
        10 * power_of_ten((k - 1) as nat)
    }
}

/// A number takes a digit for each power of ten up to it, and nothing but digits.
pub proof fn lemma_decimal(n: nat, k: nat)
    requires
        1 <= k,
        n < power_of_ten(k),
    ensures
        1 <= decimal(n).len() <= k,
        forall|i: int| 0 <= i < decimal(n).len() ==> '0' <= #[trigger] decimal(n)[i] <= '9',
    decreases n,
{
    if n >= 10 {
        if k == 1 {
            reveal_with_fuel(power_of_ten, 2);
        }
        lemma_decimal(n / 10, (k - 1) as nat);
    }
}

/// A counter takes no more than twenty digits.
pub proof fn lemma_decimal_of_counter(n: u64)
    ensures
        decimal(n as nat).len() <= 20,
{
    assert(power_of_ten(20) > u64::MAX) by {
        reveal_with_fuel(power_of_ten, 21);
    }
    lemma_decimal(n as nat, 20);
}

pub fn decimal_string(n: u64) -> (r: String)
    ensures
        r@ == decimal(n as nat),
    decreases n,
{
    let d: u64 = n % 10;
    let c: char = if d == 0 {
        '0'
    } else if d == 1 {
        '1'
    } else if d == 2 {
        '2'
    } else if d == 3 {
        '3'
    } else if d == 4 {
        '4'
    } else if d == 5 {
        '5'
    } else if d == 6 {
        '6'
    } else if d == 7 {
        '7'
    } else if d == 8 {
        '8'
    } else {
        '9'
    };
    let mut out = if n < 10 {
        String::new()
    } else {
        decimal_string(n / 10)
    };
    let ghost before = out@;
    out.push(c);
    proof {
        if n < 10 {
            assert(out@ =~= seq![c]);
        }
    }
    out
}

/// The decimal digits of an integer, with a minus sign below zero.
pub open spec fn signed_decimal(n: int) -> Seq<char> {
    if n < 0 {
        "-"@ + decimal((-n) as nat)
    } else {
        decimal(n as nat)
    }
}

pub fn signed_decimal_string(n: i32) -> (r: String)
    ensures
        r@ == signed_decimal(n as int),
{
    if n < 0 {
        let mut out = owned("-");
        let magnitude: u64 = (-(n as i64)) as u64;
        out.append(decimal_string(magnitude).as_str());
        out
    } else {
        decimal_string(n as u64)
    }
}

/// The words of a text with one blank between each two.
pub open spec fn collapsed(s: Seq<char>) -> Seq<char> {
    joined(words_of(s), " "@)
}

pub fn collapse_whitespace(s: &str) -> (r: String)
    ensures
        r@ == collapsed(s@),
{
    join(&words(chars_of(s).as_slice()), " ")
}

/// Whether a text comes before another: at the first difference, or by being shorter.
pub open spec fn comes_before(a: Seq<char>, b: Seq<char>) -> bool
    decreases a.len(),
{
    if b.len() == 0 {
        false
    } else if a.len() == 0 {
        true
    } else if a[0] != b[0] {
        a[0] < b[0]
    } else {
        comes_before(a.skip(1), b.skip(1))
    }
}

pub fn text_before(a: &str, b: &str) -> (r: bool)
    ensures
        r == comes_before(a@, b@),
{
    let x = chars_of(a);
    let y = chars_of(b);
    let mut i: usize = 0;
    proof {
        assert(a@.skip(0) =~= a@);
        assert(b@.skip(0) =~= b@);
    }
    loop
        invariant
            x@ == a@,
            y@ == b@,
            i <= x@.len(),
            i <= y@.len(),
            comes_before(a@.skip(i as int), b@.skip(i as int)) == comes_before(a@, b@),
        decreases x@.len() - i,
    {
        if i >= y.len() {
            return false;
        }
        if i >= x.len() {
            return true;
        }
        if x[i] != y[i] {
            return x[i] < y[i];
        }
        proof {
            assert(a@.skip(i as int).skip(1) =~= a@.skip(i + 1));
            assert(b@.skip(i as int).skip(1) =~= b@.skip(i + 1));
        }
        i += 1;
    }
}

/// The ASCII lower-case form of a character; every other character is its own.
pub open spec fn lowered_char(c: char) -> char {
    if 'A' <= c <= 'Z' {
        (c as u32 + 32) as char
    } else {
        c
    }
}

pub open spec fn lowered(s: Seq<char>) -> Seq<char> {
    Seq::new(s.len(), |i: int| lowered_char(s[i]))
}

pub fn lower_char(c: char) -> (r: char)
    ensures
        r == lowered_char(c),
{
    if 'A' <= c && c <= 'Z' {
        (c as u8 + 32) as char
    } else {
        c
    }
}

pub fn to_ascii_lowercase(s: &[char]) -> (r: String)
    ensures
        r@ == lowered(s@),
{
    let mut out = String::new();
    let mut i: usize = 0;
    while i < s.len()
        invariant
            i <= s@.len(),
            out@ == lowered(s@.take(i as int)),
        decreases s@.len() - i,
    {
        let ghost before = out@;
        out.push(lower_char(s[i]));
        proof {
            assert(out@ =~= lowered(s@.take(i + 1)));
        }
        i += 1;
    }
    proof {
        assert(s@.take(s@.len() as int) =~= s@);
    }
    out
}

/// Whether `needle` stands at position `i` of `s`, compared without regard to ASCII case.
pub open spec fn matches_at(s: Seq<char>, needle: Seq<char>, i: int) -> bool {
    &&& 0 <= i
    &&& i + needle.len() <= s.len()
    &&& lowered(s.subrange(i, i + needle.len())) == lowered(needle)
}

pub fn stands_at(s: &[char], needle: &[char], i: usize) -> (r: bool)
    requires
        i <= s@.len(),
    ensures
        r == matches_at(s@, needle@, i as int),
{
    let len: usize = s.len();
    if needle.len() > len - i {
        return false;
    }
    let mut k: usize = 0;
    while k < needle.len()
        invariant
            k <= needle@.len(),
            i + needle@.len() <= s@.len(),
            len == s@.len(),
            forall|j: int| 0 <= j < k ==> lowered_char(s@[i + j]) == lowered_char(needle@[j]),
        decreases needle@.len() - k,
    {
        if lower_char(s[i + k]) != lower_char(needle[k]) {
            proof {
                let window = s@.subrange(i as int, i + needle@.len());
                assert(lowered(window)[k as int] == lowered_char(s@[i + k]));
                assert(lowered(needle@)[k as int] == lowered_char(needle@[k as int]));
            }
            return false;
        }
        k += 1;
    }
    proof {
        assert(lowered(s@.subrange(i as int, i + needle@.len())) =~= lowered(needle@));
    }
    true
}

/// Whether `needle` stands anywhere in `s`, compared without regard to ASCII case.
pub open spec fn holds_ignoring_case(s: Seq<char>, needle: Seq<char>) -> bool {
    exists|i: int| matches_at(s, needle, i)
}

pub fn contains_ascii_case_insensitive(s: &[char], needle: &[char]) -> (r: bool)
    ensures
        r == holds_ignoring_case(s@, needle@),
{
    let mut i: usize = 0;
    while i < s.len()
        invariant
            i <= s@.len(),
            forall|j: int| 0 <= j < i ==> !matches_at(s@, needle@, j),
        decreases s@.len() - i,
    {
        if stands_at(s, needle, i) {
            return true;
        }
        i += 1;
    }
    stands_at(s, needle, i)
}

/// Whether a text begins with another, character for character.
pub open spec fn begins_with(s: Seq<char>, prefix: Seq<char>) -> bool {
    prefix.len() <= s.len() && s.take(prefix.len() as int) == prefix
}

pub fn starts_with(s: &[char], prefix: &[char]) -> (r: bool)
    ensures
        r == begins_with(s@, prefix@),
{
    if prefix.len() > s.len() {
        return false;
    }
    let mut k: usize = 0;
    while k < prefix.len()
        invariant
            k <= prefix@.len() <= s@.len(),
            forall|j: int| 0 <= j < k ==> s@[j] == prefix@[j],
        decreases prefix@.len() - k,
    {
        if s[k] != prefix[k] {
            proof {
                assert(s@.take(prefix@.len() as int)[k as int] == s@[k as int]);
            }
            return false;
        }
        k += 1;
    }
    proof {
        assert(s@.take(prefix@.len() as int) =~= prefix@);
    }
    true
}

/// Whether two texts hold the same characters.
pub fn same_text(a: &[char], b: &[char]) -> (r: bool)
    ensures
        r == (a@ == b@),
{
    if a.len() != b.len() {
        return false;
    }
    let r = starts_with(a, b);
    proof {
        assert(a@.take(b@.len() as int) =~= a@);
    }
    r
}

/// Whether a string holds exactly the characters of another.
pub fn text_is(a: &str, b: &str) -> (r: bool)
    ensures
        r == (a@ == b@),
{
    same_text(chars_of(a).as_slice(), chars_of(b).as_slice())
}

/// Whether a list of words holds a given one.
pub fn holds_text(list: &Vec<String>, word: &str) -> (r: bool)
    ensures
        r == views(list@).contains(word@),
{
    let wanted = chars_of(word);
    let mut i: usize = 0;
    while i < list.len()
        invariant
            i <= list@.len(),
            wanted@ == word@,
            forall|j: int| 0 <= j < i ==> list@[j]@ != word@,
        decreases list@.len() - i,
    {
        if same_text(chars_of(list[i].as_str()).as_slice(), wanted.as_slice()) {
            proof {
                assert(views(list@)[i as int] == word@);
            }
            return true;
        }
        i += 1;
    }
    false
}

} // verus!
