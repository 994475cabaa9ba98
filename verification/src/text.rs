//! Character sequences: the conversions between `String` and `Vec<char>`, and
//! the splitting, joining and searching that URLs, markdown and templates share.

use vstd::prelude::*;
use vstd::std_specs::iter::IteratorSpec;

verus! {

/// What separates the runs of a text.
pub enum Separator {
    /// One given character.
    Char(char),
    /// Any character that `char::is_whitespace` accepts.
    Whitespace,
}

/// Whether a character is whitespace: whether it has the Unicode property
/// `White_Space`.
pub open spec fn char_is_whitespace(c: char) -> bool {
    let n = c as int;
    ||| 0x09 <= n <= 0x0D
    ||| n == 0x20
    ||| n == 0x85
    ||| n == 0xA0
    ||| n == 0x1680
    ||| 0x2000 <= n <= 0x200A
    ||| n == 0x2028
    ||| n == 0x2029
    ||| n == 0x202F
    ||| n == 0x205F
    ||| n == 0x3000
}

/// Whether `char::is_alphanumeric` accepts `c`.
pub uninterp spec fn char_is_alphanumeric(c: char) -> bool;

/// The text that `str::to_lowercase` gives for `s`.
pub uninterp spec fn lowercase_of(s: Seq<char>) -> Seq<char>;

/// `char::is_whitespace`: the answer is the Unicode `White_Space` property of
/// the character, which `char_is_whitespace` writes out.
pub assume_specification[ char::is_whitespace ](c: char) -> (r: bool)
    ensures
        r == char_is_whitespace(c),
;

/// `char::is_alphanumeric`: the answer is the Unicode `Alphabetic` or numeric
/// property of the character, a fixed table, named here by
/// `char_is_alphanumeric`.
pub assume_specification[ char::is_alphanumeric ](c: char) -> (r: bool)
    ensures
        r == char_is_alphanumeric(c),
;

/// `str::to_lowercase`: the result depends on the characters of the text
/// alone, and is named here by `lowercase_of`.
pub assume_specification[ str::to_lowercase ](s: &str) -> (r: String)
    ensures
        r@ == lowercase_of(s@),
;

/// `String::from_iter` over the characters of a vector: the string holds
/// exactly those characters, in order.
#[verifier::external_body]
pub(crate) fn string_of(chars: &Vec<char>) -> (s: String)
    ensures
        s@ == chars@,
{
    String::from_iter(chars.iter())
}

/// The characters of a text, in order.
pub fn chars_of(s: &str) -> (v: Vec<char>)
    ensures
        v@ == s@,
{
    let mut v: Vec<char> = Vec::new();
    for c in it: s.chars()
        invariant
            it.seq() == s@,
            v@ == s@.take(it.index() as int),
    {
        v.push(c);
    }
    v
}

/// A copy of a text.
pub fn copy_chars(v: &Vec<char>) -> (r: Vec<char>)
    ensures
        r@ == v@,
{
    let mut r: Vec<char> = Vec::new();
    let mut i: usize = 0;
    while i < v.len()
        invariant
            0 <= i <= v.len(),
            r@ == v@.take(i as int),
        decreases v.len() - i,
    {
        r.push(v[i]);
        proof {
            assert(v@.take(i + 1) =~= v@.take(i as int).push(v@[i as int]));
        }
        i += 1;
    }
    proof {
        assert(v@.take(i as int) =~= v@);
    }
    r
}

/// The texts that a vector of strings holds.
pub open spec fn texts_of(strings: Seq<String>) -> Seq<Seq<char>> {
    strings.map_values(|s: String| s@)
}

/// The texts that a vector of character vectors holds.
pub open spec fn deep(parts: Seq<Vec<char>>) -> Seq<Seq<char>> {
    parts.map_values(|p: Vec<char>| p@)
}

/// The texts of a vector with one more text.
pub proof fn lemma_deep_push(parts: Seq<Vec<char>>, part: Vec<char>)
    ensures
        deep(parts.push(part)) == deep(parts).push(part@),
{
    assert(deep(parts.push(part)) =~= deep(parts).push(part@));
}

/// The texts of a vector with one more string.
pub proof fn lemma_texts_of_push(strings: Seq<String>, s: String)
    ensures
        texts_of(strings.push(s)) == texts_of(strings).push(s@),
{
    assert(texts_of(strings.push(s)) =~= texts_of(strings).push(s@));
}

/// Whether `c` separates runs.
pub open spec fn separates(sep: Separator, c: char) -> bool {
    match sep {
        Separator::Char(d) => c == d,
        Separator::Whitespace => char_is_whitespace(c),
    }
}

/// The state of a left-to-right scan: the runs that a separator has closed,
/// and the run that is still open.
pub open spec fn scan(s: Seq<char>, sep: Separator) -> (Seq<Seq<char>>, Seq<char>)
    decreases s.len(),
{
    if s.len() == 0 {
        (Seq::empty(), Seq::empty())
    } else {
        let (done, open) = scan(s.drop_last(), sep);
        if separates(sep, s.last()) {
            (close_run(done, open), Seq::empty())
        } else {
            (done, open.push(s.last()))
        }
    }
}

/// `done` with `open` added, unless `open` is empty.
pub open spec fn close_run(done: Seq<Seq<char>>, open: Seq<char>) -> Seq<Seq<char>> {
    if open.len() > 0 {
        done.push(open)
    } else {
        done
    }
}

/// The maximal non-empty runs of `s` that hold no separator, in order.
pub open spec fn runs(s: Seq<char>, sep: Separator) -> Seq<Seq<char>> {
    close_run(scan(s, sep).0, scan(s, sep).1)
}

/// `parts` written one after another, with `before` in front of each.
pub open spec fn prefixed_concat(parts: Seq<Seq<char>>, before: Seq<char>) -> Seq<char>
    decreases parts.len(),
{
    if parts.len() == 0 {
        Seq::empty()
    } else {
        prefixed_concat(parts.drop_last(), before) + before + parts.last()
    }
}

/// `parts` written one after another, with `between` between neighbours.
pub open spec fn joined(parts: Seq<Seq<char>>, between: Seq<char>) -> Seq<char>
    decreases parts.len(),
{
    if parts.len() == 0 {
        Seq::empty()
    } else if parts.len() == 1 {
        parts[0]
    } else {
        joined(parts.drop_last(), between) + between + parts.last()
    }
}

/// Whether `c` separates runs.
pub fn is_separator(sep: &Separator, c: char) -> (r: bool)
    ensures
        r == separates(*sep, c),
{
    match sep {
        Separator::Char(d) => c == *d,
        Separator::Whitespace => c.is_whitespace(),
    }
}

/// Splits a text into its runs.
pub fn split(s: &Vec<char>, sep: &Separator) -> (out: Vec<Vec<char>>)
    ensures
        deep(out@) == runs(s@, *sep),
{
    let mut done: Vec<Vec<char>> = Vec::new();
    let mut open: Vec<char> = Vec::new();
    let mut i: usize = 0;
    while i < s.len()
        invariant
            0 <= i <= s.len(),
            deep(done@) == scan(s@.take(i as int), *sep).0,
            open@ == scan(s@.take(i as int), *sep).1,
        decreases s.len() - i,
    {
        proof {
            assert(s@.take(i + 1).drop_last() =~= s@.take(i as int));
            assert(s@.take(i + 1).last() == s@[i as int]);
        }
        if is_separator(sep, s[i]) {
            if open.len() > 0 {
                proof {
                    lemma_deep_push(done@, open);
                }
                done.push(open);
            }
            open = Vec::new();
        } else {
            open.push(s[i]);
        }
        i += 1;
    }
    proof {
        assert(s@.take(i as int) =~= s@);
    }
    if open.len() > 0 {
        proof {
            lemma_deep_push(done@, open);
        }
        done.push(open);
    }
    done
}

/// Writes the parts one after another, with `between` between neighbours.
pub fn join(parts: &Vec<Vec<char>>, between: &Vec<char>) -> (out: Vec<char>)
    ensures
        out@ == joined(deep(parts@), between@),
{
    let mut out: Vec<char> = Vec::new();
    let mut i: usize = 0;
    while i < parts.len()
        invariant
            0 <= i <= parts.len(),
            out@ == joined(deep(parts@).take(i as int), between@),
        decreases parts.len() - i,
    {
        let ghost before = out@;
        if i > 0 {
            append_chars(&mut out, between);
        }
        append_chars(&mut out, &parts[i]);
        proof {
            let upto = deep(parts@).take(i + 1);
            assert(upto.drop_last() =~= deep(parts@).take(i as int));
            assert(upto.last() == parts@[i as int]@);
            if i == 0 {
                assert(out@ =~= parts@[i as int]@);
                assert(upto[0] == parts@[i as int]@);
            }
        }
        i += 1;
    }
    proof {
        assert(deep(parts@).take(i as int) =~= deep(parts@));
    }
    out
}

/// Adds the characters of `more` at the end of `out`.
pub fn append_chars(out: &mut Vec<char>, more: &Vec<char>)
    ensures
        final(out)@ == old(out)@ + more@,
{
    let ghost before = out@;
    let mut k: usize = 0;
    assert(before + more@.take(0) =~= before);
    while k < more.len()
        invariant
            0 <= k <= more.len(),
            out@ == before + more@.take(k as int),
        decreases more.len() - k,
    {
        out.push(more[k]);
        proof {
            assert(more@.take(k + 1) =~= more@.take(k as int).push(more@[k as int]));
            assert(out@ =~= before + more@.take(k + 1));
        }
        k += 1;
    }
    proof {
        assert(more@.take(k as int) =~= more@);
    }
}

/// Whether `needle` stands in `hay` at position `at`.
pub open spec fn occurs_at(hay: Seq<char>, at: int, needle: Seq<char>) -> bool {
    0 <= at && at + needle.len() <= hay.len() && hay.subrange(at, at + needle.len()) == needle
}

/// Whether `needle` stands in `hay` at position `at`.
pub fn matches_at(hay: &Vec<char>, at: usize, needle: &Vec<char>) -> (r: bool)
    ensures
        r == occurs_at(hay@, at as int, needle@),
{
    if at > hay.len() || needle.len() > hay.len() - at {
        return false;
    }
    let mut k: usize = 0;
    while k < needle.len()
        invariant
            0 <= k <= needle.len(),
            at + needle.len() <= hay.len(),
            hay@.subrange(at as int, at + k) == needle@.take(k as int),
        decreases needle.len() - k,
    {
        if hay[at + k] != needle[k] {
            proof {
                assert(hay@.subrange(at as int, at + needle.len())[k as int] != needle@[k as int]);
            }
            return false;
        }
        proof {
            assert(hay@.subrange(at as int, at + k + 1) =~= hay@.subrange(at as int, at + k).push(
                hay@[at + k],
            ));
            assert(needle@.take(k + 1) =~= needle@.take(k as int).push(needle@[k as int]));
        }
        k += 1;
    }
    proof {
        assert(needle@.take(k as int) =~= needle@);
    }
    true
}

/// The first position at or after `from` where `needle` stands in `hay`.
pub open spec fn first_occurrence(hay: Seq<char>, needle: Seq<char>, from: int) -> Option<int>
    decreases hay.len() - from + 1,
{
    if from < 0 || from + needle.len() > hay.len() {
        None
    } else if occurs_at(hay, from, needle) {
        Some(from)
    } else {
        first_occurrence(hay, needle, from + 1)
    }
}

/// Where `first_occurrence` finds the text, it stands.
pub proof fn lemma_first_occurrence(hay: Seq<char>, needle: Seq<char>, from: int)
    ensures
        match first_occurrence(hay, needle, from) {
            Some(at) => from <= at && occurs_at(hay, at, needle),
            None => true,
        },
    decreases hay.len() - from + 1,
{
    if !(from < 0 || from + needle.len() > hay.len()) && !occurs_at(hay, from, needle) {
        lemma_first_occurrence(hay, needle, from + 1);
    }
}

/// Finds the first position at or after `from` where `needle` stands.
pub fn find(hay: &Vec<char>, needle: &Vec<char>, from: usize) -> (r: Option<usize>)
    ensures
        match r {
            Some(i) => first_occurrence(hay@, needle@, from as int) == Some(i as int),
            None => first_occurrence(hay@, needle@, from as int).is_none(),
        },
{
    if needle.len() > hay.len() || from > hay.len() - needle.len() {
        return None;
    }
    let last: usize = hay.len() - needle.len();
    let mut i: usize = from;
    loop
        invariant
            from <= i <= last,
            last == hay.len() - needle.len(),
            first_occurrence(hay@, needle@, from as int) == first_occurrence(
                hay@,
                needle@,
                i as int,
            ),
        decreases last - i,
    {
        if matches_at(hay, i, needle) {
            return Some(i);
        }
        if i == last {
            proof {
                assert(first_occurrence(hay@, needle@, i + 1).is_none());
            }
            return None;
        }
        i += 1;
    }
}

/// What each pair of a table holds: a token and what is written for it.
pub open spec fn table_of(pairs: Seq<(Vec<char>, Vec<char>)>) -> Seq<(Seq<char>, Seq<char>)> {
    pairs.map_values(|p: (Vec<char>, Vec<char>)| (p.0@, p.1@))
}

/// The first entry at or after `k` whose token stands in `s` at `at`. An
/// empty token stands nowhere.
pub open spec fn token_from(
    s: Seq<char>,
    at: int,
    table: Seq<(Seq<char>, Seq<char>)>,
    k: int,
) -> Option<int>
    decreases table.len() - k,
{
    if k < 0 || k >= table.len() {
        None
    } else if table[k].0.len() > 0 && occurs_at(s, at, table[k].0) {
        Some(k)
    } else {
        token_from(s, at, table, k + 1)
    }
}

/// `s` from `from` on, read left to right: where a token of the table
/// stands, its replacement is written and the token is passed over; where
/// none stands, the character is kept. Of two tokens at one place the
/// earlier entry wins.
pub open spec fn substituted(s: Seq<char>, from: int, table: Seq<(Seq<char>, Seq<char>)>) -> Seq<
    char,
>
    decreases s.len() - from,
{
    if from < 0 || from >= s.len() {
        Seq::empty()
    } else {
        match token_from(s, from, table, 0) {
            Some(k) => if 0 <= k < table.len() && table[k].0.len() > 0 && from + table[k].0.len()
                <= s.len() {
                table[k].1 + substituted(s, from + table[k].0.len(), table)
            } else {
                seq![s[from]] + substituted(s, from + 1, table)
            },
            None => seq![s[from]] + substituted(s, from + 1, table),
        }
    }
}

/// The entry that `token_from` finds is in the table, and its token stands
/// at the place.
pub proof fn lemma_token_from(s: Seq<char>, at: int, table: Seq<(Seq<char>, Seq<char>)>, k: int)
    ensures
        match token_from(s, at, table, k) {
            Some(j) => k <= j < table.len() && table[j].0.len() > 0 && occurs_at(
                s,
                at,
                table[j].0,
            ),
            None => true,
        },
    decreases table.len() - k,
{
    if 0 <= k < table.len() && !(table[k].0.len() > 0 && occurs_at(s, at, table[k].0)) {
        lemma_token_from(s, at, table, k + 1);
    }
}

/// Finds the token that stands at `at`.
pub fn token_at(s: &Vec<char>, at: usize, table: &Vec<(Vec<char>, Vec<char>)>) -> (r: Option<
    usize,
>)
    ensures
        match r {
            Some(k) => token_from(s@, at as int, table_of(table@), 0) == Some(k as int),
            None => token_from(s@, at as int, table_of(table@), 0).is_none(),
        },
{
    let mut k: usize = 0;
    while k < table.len()
        invariant
            0 <= k <= table.len(),
            token_from(s@, at as int, table_of(table@), 0) == token_from(
                s@,
                at as int,
                table_of(table@),
                k as int,
            ),
        decreases table.len() - k,
    {
        proof {
            assert(table_of(table@)[k as int].0 == table@[k as int].0@);
        }
        if table[k].0.len() > 0 && matches_at(s, at, &table[k].0) {
            return Some(k);
        }
        k += 1;
    }
    None
}

/// Writes `s` with the tokens of the table replaced.
pub fn substitute(s: &Vec<char>, table: &Vec<(Vec<char>, Vec<char>)>) -> (out: Vec<char>)
    ensures
        out@ == substituted(s@, 0, table_of(table@)),
{
    let mut out: Vec<char> = Vec::new();
    let mut i: usize = 0;
    assert(out@ + substituted(s@, 0, table_of(table@)) =~= substituted(s@, 0, table_of(table@)));
    while i < s.len()
        invariant
            0 <= i <= s.len(),
            out@ + substituted(s@, i as int, table_of(table@)) == substituted(
                s@,
                0,
                table_of(table@),
            ),
        decreases s.len() - i,
    {
        let ghost before = out@;
        let ghost tail = substituted(s@, i as int, table_of(table@));
        match token_at(s, i, table) {
            Some(k) => {
                proof {
                    lemma_token_from(s@, i as int, table_of(table@), 0);
                    assert(table_of(table@)[k as int] == (table@[k as int].0@, table@[k as int].1@));
                }
                let replacement = &table[k].1;
                let mut j: usize = 0;
                while j < replacement.len()
                    invariant
                        0 <= j <= replacement.len(),
                        out@ == before + replacement@.take(j as int),
                    decreases replacement.len() - j,
                {
                    out.push(replacement[j]);
                    proof {
                        assert(replacement@.take(j + 1) =~= replacement@.take(j as int).push(
                            replacement@[j as int],
                        ));
                    }
                    j += 1;
                }
                proof {
                    assert(replacement@.take(j as int) =~= replacement@);
                    let next = substituted(s@, i + table[k as int].0@.len(), table_of(table@));
                    assert(tail == replacement@ + next);
                    assert(out@ + next =~= before + tail);
                }
                i += table[k].0.len();
            },
            None => {
                out.push(s[i]);
                proof {
                    let next = substituted(s@, i + 1, table_of(table@));
                    assert(tail == seq![s@[i as int]] + next);
                    assert(out@ + next =~= before + tail);
                }
                i += 1;
            },
        }
    }
    proof {
        assert(out@ + Seq::<char>::empty() =~= out@);
    }
    out
}

/// How many whitespace characters stand at the start of `s`.
pub open spec fn leading_whitespace(s: Seq<char>) -> int
    decreases s.len(),
{
    if s.len() == 0 || !char_is_whitespace(s[0]) {
        0
    } else {
        1 + leading_whitespace(s.drop_first())
    }
}

/// `s` without the whitespace at its start.
pub open spec fn trimmed_start(s: Seq<char>) -> Seq<char> {
    s.subrange(leading_whitespace(s), s.len() as int)
}

/// The whitespace at the start ends at the first character that is none.
pub proof fn lemma_leading_whitespace(s: Seq<char>, k: int)
    requires
        0 <= k <= s.len(),
        forall|j: int| 0 <= j < k ==> char_is_whitespace(#[trigger] s[j]),
        k == s.len() || !char_is_whitespace(s[k]),
    ensures
        leading_whitespace(s) == k,
    decreases k,
{
    if k > 0 {
        let rest = s.drop_first();
        assert forall|j: int| 0 <= j < k - 1 implies char_is_whitespace(#[trigger] rest[j]) by {
            assert(rest[j] == s[j + 1]);
        }
        assert(char_is_whitespace(s[0]));
        lemma_leading_whitespace(rest, k - 1);
    }
}

/// Counts the whitespace characters at the start of a text.
pub fn count_leading_whitespace(s: &Vec<char>) -> (k: usize)
    ensures
        k == leading_whitespace(s@),
        k <= s.len(),
{
    let mut k: usize = 0;
    while k < s.len() && s[k].is_whitespace()
        invariant
            0 <= k <= s.len(),
            forall|j: int| 0 <= j < k ==> char_is_whitespace(#[trigger] s@[j]),
        decreases s.len() - k,
    {
        k += 1;
    }
    proof {
        lemma_leading_whitespace(s@, k as int);
    }
    k
}

/// The characters of `s` from `from` up to `to`.
pub fn slice_chars(s: &Vec<char>, from: usize, to: usize) -> (r: Vec<char>)
    requires
        from <= to <= s.len(),
    ensures
        r@ == s@.subrange(from as int, to as int),
{
    let mut r: Vec<char> = Vec::new();
    let mut i: usize = from;
    while i < to
        invariant
            from <= i <= to <= s.len(),
            r@ == s@.subrange(from as int, i as int),
        decreases to - i,
    {
        r.push(s[i]);
        proof {
            assert(s@.subrange(from as int, i + 1) =~= s@.subrange(from as int, i as int).push(
                s@[i as int],
            ));
        }
        i += 1;
    }
    r
}

/// The character of a decimal digit.
pub open spec fn digit_char(d: int) -> char {
    if d == 0 {
        '0'
    } else if d == 1 {
        '1'
    } else if d == 2 {
        '2'
    } else if d == 3 {
        '3'
    } else if d == 4 {
        '4'
    } else if d == 5 {
        '5'
    } else if d == 6 {
        '6'
    } else if d == 7 {
        '7'
    } else if d == 8 {
        '8'
    } else {
        '9'
    }
}

/// A number in decimal digits, without leading zeros.
pub open spec fn decimal(n: nat) -> Seq<char>
    decreases n,
{
    if n < 10 {
        seq![digit_char(n as int)]
    } else {
        decimal(n / 10).push(digit_char((n % 10) as int))
    }
}

/// The digit that a character stands for, or -1.
pub open spec fn digit_value(c: char) -> int {
    if c == '0' {
        0
    } else if c == '1' {
        1
    } else if c == '2' {
        2
    } else if c == '3' {
        3
    } else if c == '4' {
        4
    } else if c == '5' {
        5
    } else if c == '6' {
        6
    } else if c == '7' {
        7
    } else if c == '8' {
        8
    } else if c == '9' {
        9
    } else {
        -1
    }
}

/// The number that decimal digits stand for.
pub open spec fn decimal_value(digits: Seq<char>) -> int
    decreases digits.len(),
{
    if digits.len() == 0 {
        0
    } else {
        decimal_value(digits.drop_last()) * 10 + digit_value(digits.last())
    }
}

/// The digits of a number stand for that number, and each is a digit.
pub proof fn lemma_decimal_value(n: nat)
    ensures
        decimal_value(decimal(n)) == n,
        decimal(n).len() >= 1,
        forall|k: int| 0 <= k < decimal(n).len() ==> digit_value(#[trigger] decimal(n)[k]) >= 0,
    decreases n,
{
    if n < 10 {
        assert(decimal(n).drop_last() =~= Seq::<char>::empty());
        assert(decimal(n).last() == digit_char(n as int));
        assert(digit_value(digit_char(n as int)) == n);
        assert(decimal_value(decimal(n).drop_last()) == 0);
        assert(decimal_value(decimal(n)) == 0 * 10 + digit_value(decimal(n).last()));
    } else {
        lemma_decimal_value(n / 10);
        let digits = decimal(n);
        assert(digits.drop_last() =~= decimal(n / 10));
        assert(digits.last() == digit_char((n % 10) as int));
        assert(digit_value(digit_char((n % 10) as int)) == n % 10);
        assert(decimal_value(digits) == decimal_value(digits.drop_last()) * 10 + digit_value(
            digits.last(),
        ));
        assert((n / 10) * 10 + n % 10 == n) by (nonlinear_arith);
        assert forall|k: int| 0 <= k < digits.len() implies digit_value(#[trigger] digits[k])
            >= 0 by {
            if k < digits.len() - 1 {
                assert(digits[k] == decimal(n / 10)[k]);
            }
        }
    }
}

/// Different numbers have different digits.
pub proof fn lemma_decimal_injective(a: nat, b: nat)
    requires
        decimal(a) == decimal(b),
    ensures
        a == b,
{
    lemma_decimal_value(a);
    lemma_decimal_value(b);
}

fn digit(d: usize) -> (c: char)
    requires
        d < 10,
    ensures
        c == digit_char(d as int),
{
    if d == 0 {
        '0'
    } else if d == 1 {
        '1'
    } else if d == 2 {
        '2'
    } else if d == 3 {
        '3'
    } else if d == 4 {
        '4'
    } else if d == 5 {
        '5'
    } else if d == 6 {
        '6'
    } else if d == 7 {
        '7'
    } else if d == 8 {
        '8'
    } else {
        '9'
    }
}

/// Writes a number in decimal digits.
pub fn decimal_digits(n: usize) -> (r: Vec<char>)
    ensures
        r@ == decimal(n as nat),
    decreases n,
{
    if n < 10 {
        let mut r: Vec<char> = Vec::new();
        r.push(digit(n));
        assert(r@ =~= seq![digit_char(n as int)]);
        r
    } else {
        let mut r = decimal_digits(n / 10);
        r.push(digit(n % 10));
        r
    }
}

} // verus!
