//! Character classes, trimming, word and line splitting, and number
//! rendering over sequences of `char`.

use vstd::prelude::*;

verus! {

broadcast use vstd::string::group_string_axioms;

/// The Unicode `White_Space` property, which `char::is_whitespace` tests.
pub open spec fn is_ws(c: char) -> bool {
    let u = c as u32;
    ||| 0x09 <= u <= 0x0D
    ||| u == 0x20
    ||| u == 0x85
    ||| u == 0xA0
    ||| u == 0x1680
    ||| 0x2000 <= u <= 0x200A
    ||| u == 0x2028
    ||| u == 0x2029
    ||| u == 0x202F
    ||| u == 0x205F
    ||| u == 0x3000
}

/// Whether `c` is white space, as `char::is_whitespace` decides.
pub fn is_whitespace(c: char) -> (r: bool)
    ensures
        r == is_ws(c),
{
    let u = c as u32;
    (0x09 <= u && u <= 0x0D) || u == 0x20 || u == 0x85 || u == 0xA0 || u == 0x1680 || (0x2000
        <= u && u <= 0x200A) || u == 0x2028 || u == 0x2029 || u == 0x202F || u == 0x205F || u
        == 0x3000
}

/// The characters of a string slice, in order.
pub fn to_chars(s: &str) -> (r: Vec<char>)
    ensures
        r@ == s@,
{
    let mut out: Vec<char> = Vec::new();
    for c in it: s.chars()
        invariant
            out@ == it.seq().take(it.index() as int),
            it.seq() == s@,
    {
        out.push(c);
    }
    out
}


/// The two kinds of characters that get trimmed off the ends of a text.
#[derive(Clone, Copy, PartialEq, Eq, Debug)]
pub enum CharClass {
    /// Unicode white space (`str::trim`).
    Whitespace,
    /// The double quote `"` (`str::trim_matches('"')`).
    DoubleQuote,
}

pub open spec fn in_class(k: CharClass, c: char) -> bool {
    match k {
        CharClass::Whitespace => is_ws(c),
        CharClass::DoubleQuote => c == '"',
    }
}

/// Whether `c` belongs to the class `k`.
pub fn char_in_class(k: CharClass, c: char) -> (r: bool)
    ensures
        r == in_class(k, c),
{
    match k {
        CharClass::Whitespace => is_whitespace(c),
        CharClass::DoubleQuote => c == '"',
    }
}

/// `s` without the characters of class `k` at its start.
pub open spec fn trim_start(s: Seq<char>, k: CharClass) -> Seq<char>
    decreases s.len(),
{
    if s.len() > 0 && in_class(k, s[0]) {
        trim_start(s.drop_first(), k)
    } else {
        s
    }
}

/// `s` without the characters of class `k` at its end.
pub open spec fn trim_end(s: Seq<char>, k: CharClass) -> Seq<char>
    decreases s.len(),
{
    if s.len() > 0 && in_class(k, s.last()) {
        trim_end(s.drop_last(), k)
    } else {
        s
    }
}

/// `s` without the characters of class `k` at either end.
pub open spec fn trim(s: Seq<char>, k: CharClass) -> Seq<char> {
    trim_end(trim_start(s, k), k)
}

proof fn lemma_trim_start_sub(s: Seq<char>, a: int, b: int, k: CharClass)
    requires
        0 <= a < b <= s.len(),
        in_class(k, s[a]),
    ensures
        trim_start(s.subrange(a, b), k) == trim_start(s.subrange(a + 1, b), k),
{
    assert(s.subrange(a, b).drop_first() =~= s.subrange(a + 1, b));
}

proof fn lemma_trim_end_sub(s: Seq<char>, a: int, b: int, k: CharClass)
    requires
        0 <= a < b <= s.len(),
        in_class(k, s[b - 1]),
    ensures
        trim_end(s.subrange(a, b), k) == trim_end(s.subrange(a, b - 1), k),
{
    assert(s.subrange(a, b).drop_last() =~= s.subrange(a, b - 1));
}

/// The bounds of `trim(chars[start..end], k)` inside `chars`.
pub fn trim_range(chars: &Vec<char>, start: usize, end: usize, k: CharClass) -> (r: (usize, usize))
    requires
        start <= end <= chars.len(),
    ensures
        start <= r.0 <= r.1 <= end,
        chars@.subrange(r.0 as int, r.1 as int) == trim(chars@.subrange(start as int, end as int), k),
{
    let mut a = start;
    while a < end && char_in_class(k, chars[a])
        invariant
            start <= a <= end <= chars.len(),
            trim_start(chars@.subrange(start as int, end as int), k) == trim_start(
                chars@.subrange(a as int, end as int),
                k,
            ),
        decreases end - a,
    {
        proof {
            lemma_trim_start_sub(chars@, a as int, end as int, k);
        }
        a = a + 1;
    }
    assert(trim_start(chars@.subrange(a as int, end as int), k) == chars@.subrange(
        a as int,
        end as int,
    ));
    let mut b = end;
    while b > a && char_in_class(k, chars[b - 1])
        invariant
            start <= a <= b <= end <= chars.len(),
            trim_end(chars@.subrange(a as int, end as int), k) == trim_end(
                chars@.subrange(a as int, b as int),
                k,
            ),
        decreases b - a,
    {
        proof {
            lemma_trim_end_sub(chars@, a as int, b as int, k);
        }
        b = b - 1;
    }
    (a, b)
}


/// Length of the run of non-white-space characters at the start of `s`.
pub open spec fn run_len(s: Seq<char>) -> nat
    decreases s.len(),
{
    if s.len() == 0 || is_ws(s[0]) {
        0
    } else {
        1 + run_len(s.drop_first())
    }
}

pub proof fn lemma_run_len_bound(s: Seq<char>)
    ensures
        run_len(s) <= s.len(),
    decreases s.len(),
{
    if s.len() > 0 && !is_ws(s[0]) {
        lemma_run_len_bound(s.drop_first());
    }
}

/// The words of `s`: its maximal runs of non-white-space characters, in
/// order (what `str::split_whitespace` yields).
pub open spec fn words(s: Seq<char>) -> Seq<Seq<char>>
    decreases s.len(),
{
    if s.len() == 0 {
        seq![]
    } else if is_ws(s[0]) {
        words(s.drop_first())
    } else {
        let k = run_len(s) as int;
        proof {
            lemma_run_len_bound(s);
        }
        seq![s.take(k)] + words(s.skip(k))
    }
}

proof fn lemma_words_trim_start(s: Seq<char>)
    ensures
        words(trim_start(s, CharClass::Whitespace)) == words(s),
    decreases s.len(),
{
    if s.len() > 0 && is_ws(s[0]) {
        lemma_words_trim_start(s.drop_first());
    }
}

proof fn lemma_run_len_drop_last(s: Seq<char>)
    requires
        s.len() > 0,
        is_ws(s.last()),
    ensures
        run_len(s.drop_last()) == run_len(s),
    decreases s.len(),
{
    if s.len() >= 2 && !is_ws(s[0]) {
        assert(s.drop_last().drop_first() =~= s.drop_first().drop_last());
        lemma_run_len_drop_last(s.drop_first());
    }
}

proof fn lemma_words_drop_last_ws(s: Seq<char>)
    requires
        s.len() > 0,
        is_ws(s.last()),
    ensures
        words(s.drop_last()) == words(s),
    decreases s.len(),
{
    if s.len() == 1 {
        assert(s.drop_first() =~= Seq::<char>::empty());
        assert(s.drop_last() =~= Seq::<char>::empty());
    } else if is_ws(s[0]) {
        assert(s.drop_last().drop_first() =~= s.drop_first().drop_last());
        lemma_words_drop_last_ws(s.drop_first());
    } else {
        let k = run_len(s) as int;
        lemma_run_len_drop_last(s);
        lemma_run_len_bound(s.drop_last());
        assert(s.drop_last().take(k) =~= s.take(k));
        assert(s.drop_last().skip(k) =~= s.skip(k).drop_last());
        lemma_words_drop_last_ws(s.skip(k));
    }
}

proof fn lemma_words_trim_end(s: Seq<char>)
    ensures
        words(trim_end(s, CharClass::Whitespace)) == words(s),
    decreases s.len(),
{
    if s.len() > 0 && is_ws(s.last()) {
        lemma_words_drop_last_ws(s);
        lemma_words_trim_end(s.drop_last());
    }
}

/// White space at either end of a text does not change its words: a line
/// padded with spaces or tabs reads as the line itself.
pub proof fn law_words_ignore_outer_space(s: Seq<char>)
    ensures
        words(trim(s, CharClass::Whitespace)) == words(s),
{
    lemma_words_trim_start(s);
    lemma_words_trim_end(trim_start(s, CharClass::Whitespace));
}

/// Number of characters before the first `'\n'` of `s` (all of them if none).
pub open spec fn line_len(s: Seq<char>) -> nat
    decreases s.len(),
{
    if s.len() == 0 || s[0] == '\n' {
        0
    } else {
        1 + line_len(s.drop_first())
    }
}

/// `t` without one trailing carriage return.
pub open spec fn strip_cr(t: Seq<char>) -> Seq<char> {
    if t.len() > 0 && t.last() == '\r' {
        t.drop_last()
    } else {
        t
    }
}

/// The lines of `s`, as `str::lines` yields them: split at `'\n'`, each
/// terminated line without its `"\n"` or `"\r\n"`, and no empty line after a
/// final line ending.
pub open spec fn lines(s: Seq<char>) -> Seq<Seq<char>>
    decreases s.len(),
{
    if s.len() == 0 {
        seq![]
    } else if line_len(s) >= s.len() {
        seq![s]
    } else {
        let k = line_len(s) as int;
        seq![strip_cr(s.take(k))] + lines(s.skip(k + 1))
    }
}

proof fn lemma_run_step(s: Seq<char>, a: int, b: int)
    requires
        0 <= a < b <= s.len(),
        !is_ws(s[a]),
    ensures
        run_len(s.subrange(a, b)) == 1 + run_len(s.subrange(a + 1, b)),
{
    assert(s.subrange(a, b).drop_first() =~= s.subrange(a + 1, b));
}

proof fn lemma_words_ws_step(s: Seq<char>, a: int, b: int)
    requires
        0 <= a < b <= s.len(),
        is_ws(s[a]),
    ensures
        words(s.subrange(a, b)) == words(s.subrange(a + 1, b)),
{
    assert(s.subrange(a, b).drop_first() =~= s.subrange(a + 1, b));
}

/// The bounds, inside `chars`, of each word of `chars[start..end]`.
pub fn word_ranges(chars: &Vec<char>, start: usize, end: usize) -> (r: Vec<(usize, usize)>)
    requires
        start <= end <= chars.len(),
    ensures
        r@.len() == words(chars@.subrange(start as int, end as int)).len(),
        forall|k: int|
            0 <= k < r@.len() ==> {
                &&& start <= (#[trigger] r@[k]).0 < r@[k].1 <= end
                &&& chars@.subrange(r@[k].0 as int, r@[k].1 as int) == words(
                    chars@.subrange(start as int, end as int),
                )[k]
            },
{
    let ghost whole = chars@.subrange(start as int, end as int);
    let ghost mut acc: Seq<Seq<char>> = seq![];
    let mut out: Vec<(usize, usize)> = Vec::new();
    let mut i = start;
    while i < end
        invariant
            start <= i <= end <= chars.len(),
            whole == chars@.subrange(start as int, end as int),
            words(whole) == acc + words(chars@.subrange(i as int, end as int)),
            acc.len() == out@.len(),
            forall|k: int|
                0 <= k < out@.len() ==> {
                    &&& start <= (#[trigger] out@[k]).0 < out@[k].1 <= i
                    &&& chars@.subrange(out@[k].0 as int, out@[k].1 as int) == acc[k]
                },
        decreases end - i,
    {
        if is_whitespace(chars[i]) {
            proof {
                lemma_words_ws_step(chars@, i as int, end as int);
            }
            i = i + 1;
        } else {
            let mut j = i;
            while j < end && !is_whitespace(chars[j])
                invariant
                    i <= j <= end <= chars.len(),
                    run_len(chars@.subrange(i as int, end as int)) == (j - i) + run_len(
                        chars@.subrange(j as int, end as int),
                    ),
                decreases end - j,
            {
                proof {
                    lemma_run_step(chars@, j as int, end as int);
                }
                j = j + 1;
            }
            proof {
                let t = chars@.subrange(i as int, end as int);
                lemma_run_step(chars@, i as int, end as int);
                assert(run_len(chars@.subrange(j as int, end as int)) == 0);
                assert(t.take(j - i) =~= chars@.subrange(i as int, j as int));
                assert(t.skip(j - i) =~= chars@.subrange(j as int, end as int));
                assert(words(t) == seq![chars@.subrange(i as int, j as int)] + words(
                    chars@.subrange(j as int, end as int),
                ));
                acc = acc.push(chars@.subrange(i as int, j as int));
                assert(words(whole) == acc + words(chars@.subrange(j as int, end as int)));
            }
            out.push((i, j));
            i = j;
        }
    }
    proof {
        assert(chars@.subrange(end as int, end as int).len() == 0);
        assert(acc + words(chars@.subrange(end as int, end as int)) =~= acc);
    }
    out
}

proof fn lemma_line_step(s: Seq<char>, a: int, b: int)
    requires
        0 <= a < b <= s.len(),
        s[a] != '\n',
    ensures
        line_len(s.subrange(a, b)) == 1 + line_len(s.subrange(a + 1, b)),
{
    assert(s.subrange(a, b).drop_first() =~= s.subrange(a + 1, b));
}

/// For each line of `chars`, the bounds of its text and the position where
/// the next line starts.
pub fn line_ranges(chars: &Vec<char>) -> (r: Vec<(usize, usize)>)
    ensures
        r@.len() == lines(chars@).len(),
        forall|k: int|
            0 <= k < r@.len() ==> {
                &&& (#[trigger] r@[k]).0 <= r@[k].1 <= chars.len()
                &&& chars@.subrange(r@[k].0 as int, r@[k].1 as int) == lines(chars@)[k]
            },
{
    let n = chars.len();
    let ghost mut acc: Seq<Seq<char>> = seq![];
    let mut out: Vec<(usize, usize)> = Vec::new();
    let mut pos: usize = 0;
    assert(chars@.subrange(0, n as int) =~= chars@);
    while pos < n
        invariant
            pos <= n == chars.len(),
            lines(chars@) == acc + lines(chars@.subrange(pos as int, n as int)),
            acc.len() == out@.len(),
            forall|k: int|
                0 <= k < out@.len() ==> {
                    &&& (#[trigger] out@[k]).0 <= out@[k].1 <= n
                    &&& chars@.subrange(out@[k].0 as int, out@[k].1 as int) == acc[k]
                },
        decreases n - pos,
    {
        let mut j = pos;
        while j < n && chars[j] != '\n'
            invariant
                pos <= j <= n == chars.len(),
                line_len(chars@.subrange(pos as int, n as int)) == (j - pos) + line_len(
                    chars@.subrange(j as int, n as int),
                ),
            decreases n - j,
        {
            proof {
                lemma_line_step(chars@, j as int, n as int);
            }
            j = j + 1;
        }
        let ghost t = chars@.subrange(pos as int, n as int);
        assert(line_len(chars@.subrange(j as int, n as int)) == 0);
        if j == n {
            proof {
                assert(lines(t) == seq![t]);
                acc = acc.push(t);
                assert(chars@.subrange(n as int, n as int) =~= Seq::<char>::empty());
                assert(acc + lines(chars@.subrange(n as int, n as int)) =~= acc);
            }
            out.push((pos, n));
            pos = n;
        } else {
            let end = if j > pos && chars[j - 1] == '\r' {
                j - 1
            } else {
                j
            };
            proof {
                assert(t.take(j - pos) =~= chars@.subrange(pos as int, j as int));
                assert(t.skip(j - pos + 1) =~= chars@.subrange(j + 1, n as int));
                assert(chars@.subrange(pos as int, end as int) =~= strip_cr(
                    chars@.subrange(pos as int, j as int),
                ));
                acc = acc.push(chars@.subrange(pos as int, end as int));
                assert(lines(chars@) == acc + lines(chars@.subrange(j + 1, n as int)));
            }
            out.push((pos, end));
            pos = j + 1;
        }
    }
    proof {
        assert(chars@.subrange(n as int, n as int) =~= Seq::<char>::empty());
        assert(acc + lines(chars@.subrange(n as int, n as int)) =~= acc);
    }
    out
}


/// Appends one character to a `String`.
///
/// Trusted: `String::push`, which std documents as appending the given
/// `char` to the end of the string.
#[verifier::external_body]
pub fn push_char(s: &mut String, c: char)
    ensures
        final(s)@ == old(s)@.push(c),
{
    s.push(c);
}

/// The text of `chars[start..end]` as a `String`.
pub fn string_of(chars: &Vec<char>, start: usize, end: usize) -> (r: String)
    requires
        start <= end <= chars.len(),
    ensures
        r@ == chars@.subrange(start as int, end as int),
{
    let mut out = String::new();
    let mut i = start;
    while i < end
        invariant
            start <= i <= end <= chars.len(),
            out@ == chars@.subrange(start as int, i as int),
        decreases end - i,
    {
        push_char(&mut out, chars[i]);
        assert(chars@.subrange(start as int, i + 1) =~= chars@.subrange(start as int, i as int).push(chars@[i as int]));
        i = i + 1;
    }
    out
}

/// Whether `chars[start..end]` is exactly the text `word`.
pub fn range_is(chars: &Vec<char>, start: usize, end: usize, word: &str) -> (r: bool)
    requires
        start <= end <= chars.len(),
    ensures
        r == (chars@.subrange(start as int, end as int) == word@),
{
    let w = to_chars(word);
    if end - start != w.len() {
        return false;
    }
    let mut i: usize = 0;
    while i < w.len()
        invariant
            end - start == w.len(),
            start <= end <= chars.len(),
            w@ == word@,
            i <= w.len(),
            forall|m: int| 0 <= m < i ==> chars@[start + m] == w@[m],
        decreases w.len() - i,
    {
        if chars[start + i] != w[i] {
            assert(chars@.subrange(start as int, end as int)[i as int] != word@[i as int]);
            return false;
        }
        i = i + 1;
    }
    assert(chars@.subrange(start as int, end as int) =~= word@);
    true
}

/// Whether `chars[start..end]` begins with the text `prefix`.
pub fn range_starts_with(chars: &Vec<char>, start: usize, end: usize, prefix: &str) -> (r: bool)
    requires
        start <= end <= chars.len(),
    ensures
        r == (prefix@.len() <= end - start && chars@.subrange(
            start as int,
            start + prefix@.len(),
        ) == prefix@),
{
    let w = to_chars(prefix);
    if w.len() > end - start {
        return false;
    }
    range_is(chars, start, start + w.len(), prefix)
}

/// The digit characters, in the order of their values.
pub open spec fn hex_digit(d: nat) -> char {
    seq!['0', '1', '2', '3', '4', '5', '6', '7', '8', '9', 'a', 'b', 'c', 'd', 'e', 'f'][d as int]
}

fn digit_char(d: u64) -> (c: char)
    requires
        d < 16,
    ensures
        c == hex_digit(d as nat),
{
    let table: [char; 16] = ['0', '1', '2', '3', '4', '5', '6', '7', '8', '9', 'a', 'b', 'c', 'd', 'e', 'f'];
    assert(table@ =~= seq!['0', '1', '2', '3', '4', '5', '6', '7', '8', '9', 'a', 'b', 'c', 'd', 'e', 'f']);
    table[d as usize]
}

/// The decimal rendering of `n`, without leading zeros.
pub open spec fn decimal(n: nat) -> Seq<char>
    decreases n,
{
    if n < 10 {
        seq![hex_digit(n)]
    } else {
        decimal(n / 10).push(hex_digit(n % 10))
    }
}

/// Appends the decimal rendering of `n` to `s`.
pub fn push_decimal(s: &mut String, n: u64)
    ensures
        final(s)@ == old(s)@ + decimal(n as nat),
    decreases n,
{
    if n >= 10 {
        push_decimal(s, n / 10);
    }
    push_char(s, digit_char(n % 10));
    proof {
        if n < 10 {
            assert(decimal(n as nat) == seq![hex_digit(n as nat)]);
        }
    }
}

/// The last `n` hexadecimal digits of `h`, lowercase, most significant first.
pub open spec fn hex_digits(h: nat, n: nat) -> Seq<char>
    decreases n,
{
    if n == 0 {
        seq![]
    } else {
        hex_digits(h / 16, (n - 1) as nat).push(hex_digit(h % 16))
    }
}

/// Appends the last `n` hexadecimal digits of `h` to `s`.
pub fn push_hex(s: &mut String, h: u64, n: u64)
    ensures
        final(s)@ == old(s)@ + hex_digits(h as nat, n as nat),
    decreases n,
{
    if n > 0 {
        push_hex(s, h / 16, n - 1);
        push_char(s, digit_char(h % 16));
    } else {
        assert(old(s)@ + hex_digits(h as nat, 0) =~= old(s)@);
    }
}

pub open spec fn is_digit(c: char) -> bool {
    48 <= c as u32 <= 57
}

pub open spec fn digit_value(c: char) -> nat {
    (c as u32 - 48) as nat
}

/// The value of a string of decimal digits.
pub open spec fn digits_value(s: Seq<char>) -> nat
    decreases s.len(),
{
    if s.len() == 0 {
        0
    } else {
        digits_value(s.drop_last()) * 10 + digit_value(s.last())
    }
}

/// `s` without one leading `+`.
pub open spec fn strip_plus(s: Seq<char>) -> Seq<char> {
    if s.len() > 0 && s[0] == '+' {
        s.drop_first()
    } else {
        s
    }
}

/// Whether `d` is one or more ASCII digits.
pub open spec fn all_digits(d: Seq<char>) -> bool {
    d.len() > 0 && forall|i: int| 0 <= i < d.len() ==> is_digit(#[trigger] d[i])
}

/// What `str::parse::<usize>` gives for `s`: an optional `+` and then one or
/// more ASCII digits whose value fits in a `usize`.
pub open spec fn usize_text(s: Seq<char>) -> Option<usize> {
    if all_digits(strip_plus(s)) && digits_value(strip_plus(s)) <= usize::MAX {
        Some(digits_value(strip_plus(s)) as usize)
    } else {
        None
    }
}

/// Parses `chars[start..end]` as `str::parse::<usize>` does.
pub fn parse_usize(chars: &Vec<char>, start: usize, end: usize) -> (r: Option<usize>)
    requires
        start <= end <= chars.len(),
    ensures
        r == usize_text(chars@.subrange(start as int, end as int)),
{
    let ghost s = chars@.subrange(start as int, end as int);
    let first = if start < end && chars[start] == '+' {
        start + 1
    } else {
        start
    };
    let ghost d = chars@.subrange(first as int, end as int);
    assert(d =~= strip_plus(s));
    if first == end {
        return None;
    }
    let mut value: usize = 0;
    let mut overflow = false;
    let mut i = first;
    while i < end
        invariant
            start <= first <= i <= end <= chars.len(),
            d == chars@.subrange(first as int, end as int),
            s == chars@.subrange(start as int, end as int),
            d == strip_plus(s),
            forall|m: int| first <= m < i ==> is_digit(#[trigger] chars@[m]),
            !overflow ==> value == digits_value(chars@.subrange(first as int, i as int)),
            overflow ==> digits_value(chars@.subrange(first as int, i as int)) > usize::MAX,
        decreases end - i,
    {
        let c = chars[i];
        let u = c as u32;
        if u < 48 || u > 57 {
            assert(!is_digit(d[i - first]));
            assert(!all_digits(d));
            return None;
        }
        let ghost prefix = chars@.subrange(first as int, i + 1);
        assert(prefix.drop_last() =~= chars@.subrange(first as int, i as int));
        assert(prefix.last() == c);
        let digit = (u - 48) as usize;
        if !overflow {
            match value.checked_mul(10) {
                Some(v10) => match v10.checked_add(digit) {
                    Some(v) => {
                        value = v;
                    },
                    None => {
                        overflow = true;
                    },
                },
                None => {
                    overflow = true;
                },
            }
        }
        i = i + 1;
    }
    assert(chars@.subrange(first as int, end as int) == d);
    if overflow {
        None
    } else {
        Some(value)
    }
}


/// Whether two character vectors hold the same text.
pub fn chars_equal(a: &Vec<char>, b: &Vec<char>) -> (r: bool)
    ensures
        r == (a@ == b@),
{
    if a.len() != b.len() {
        return false;
    }
    let mut i: usize = 0;
    while i < a.len()
        invariant
            a@.len() == b@.len(),
            i <= a@.len(),
            forall|j: int| 0 <= j < i ==> a@[j] == b@[j],
        decreases a.len() - i,
    {
        if a[i] != b[i] {
            return false;
        }
        i = i + 1;
    }
    assert(a@ =~= b@);
    true
}


proof fn lemma_decimal_digit(d: nat)
    requires
        d < 10,
    ensures
        is_digit(hex_digit(d)),
        digit_value(hex_digit(d)) == d,
{
    let t = seq!['0', '1', '2', '3', '4', '5', '6', '7', '8', '9', 'a', 'b', 'c', 'd', 'e', 'f'];
    assert(hex_digit(d) == t[d as int]);
    if d == 0 {
        assert(t[0] == '0');
    } else if d == 1 {
        assert(t[1] == '1');
    } else if d == 2 {
        assert(t[2] == '2');
    } else if d == 3 {
        assert(t[3] == '3');
    } else if d == 4 {
        assert(t[4] == '4');
    } else if d == 5 {
        assert(t[5] == '5');
    } else if d == 6 {
        assert(t[6] == '6');
    } else if d == 7 {
        assert(t[7] == '7');
    } else if d == 8 {
        assert(t[8] == '8');
    } else {
        assert(t[9] == '9');
    }
}

/// The decimal rendering of a number is one or more digits whose value is
/// the number.
pub proof fn lemma_decimal_value(n: nat)
    ensures
        all_digits(decimal(n)),
        digits_value(decimal(n)) == n,
    decreases n,
{
    if n < 10 {
        lemma_decimal_digit(n);
        assert(decimal(n).drop_last() =~= Seq::<char>::empty());
        assert(digits_value(Seq::<char>::empty()) == 0);
        assert(decimal(n).last() == hex_digit(n));
    } else {
        lemma_decimal_value(n / 10);
        lemma_decimal_digit(n % 10);
        let s = decimal(n / 10);
        assert(decimal(n).drop_last() =~= s);
        assert(forall|i: int| 0 <= i < s.len() ==> decimal(n)[i] == s[i]);
        assert(decimal(n).last() == hex_digit(n % 10));
        assert(digits_value(decimal(n)) == digits_value(s) * 10 + digit_value(hex_digit(n % 10)));
        assert((n / 10) * 10 + n % 10 == n) by (nonlinear_arith);
    }
}

/// Reading back a number's decimal rendering gives the number:
/// `str::parse::<usize>` of `n.to_string()` is `n`.
pub proof fn law_decimal_reads_back(n: usize)
    ensures
        usize_text(decimal(n as nat)) == Some(n),
{
    lemma_decimal_value(n as nat);
    let s = decimal(n as nat);
    assert(is_digit(s[0]));
    assert(strip_plus(s) == s);
}

} // verus!
