//! Character-level text utilities shared by the parsers and formatters.
//!
//! Text is handled as sequences of `char`; the spec functions here give the
//! meaning of the std string operations that the rest of the library relies on
//! (`char::is_whitespace`, `str::split_whitespace`, `str::lines`, `str::trim`,
//! integer parsing and decimal formatting).

use vstd::prelude::*;

verus! {

/// `char::is_whitespace`: the Unicode `White_Space` property.
pub open spec fn is_ws(c: char) -> bool {
    ||| ('\u{9}' <= c && c <= '\u{d}')
    ||| c == ' '
    ||| c == '\u{85}'
    ||| c == '\u{a0}'
    ||| c == '\u{1680}'
    ||| ('\u{2000}' <= c && c <= '\u{200a}')
    ||| c == '\u{2028}'
    ||| c == '\u{2029}'
    ||| c == '\u{202f}'
    ||| c == '\u{205f}'
    ||| c == '\u{3000}'
}

pub fn is_whitespace(c: char) -> (b: bool)
    ensures
        b == is_ws(c),
{
    ('\u{9}' <= c && c <= '\u{d}') || c == ' ' || c == '\u{85}' || c == '\u{a0}' || c
        == '\u{1680}' || ('\u{2000}' <= c && c <= '\u{200a}') || c == '\u{2028}' || c
        == '\u{2029}' || c == '\u{202f}' || c == '\u{205f}' || c == '\u{3000}'
}

/// The characters of a string slice, in order.
pub fn chars_of(s: &str) -> (v: Vec<char>)
    ensures
        v@ == s@,
{
    let mut v: Vec<char> = Vec::new();
    for c in it: s.chars()
        invariant
            v@ == it.seq().take(it.index() as int),
    {
        v.push(c);
    }
    v
}

/// Appends one character to a `String` (std's `String::push`).
#[verifier::external_body]
pub(crate) fn push_char(s: &mut String, c: char)
    ensures
        final(s)@ == old(s)@.push(c),
{
    s.push(c);
}

/// A `String` holding exactly the given characters.
pub fn string_from(cs: &Vec<char>) -> (s: String)
    ensures
        s@ == cs@,
{
    let mut s = String::new();
    let mut i: usize = 0;
    while i < cs.len()
        invariant
            i <= cs.len(),
            s@ == cs@.take(i as int),
        decreases cs.len() - i,
    {
        push_char(&mut s, cs[i]);
        i = i + 1;
        assert(s@ =~= cs@.take(i as int));
    }
    assert(cs@.take(cs.len() as int) =~= cs@);
    s
}


/// The texts of a vector of strings.
pub open spec fn string_views(v: Seq<String>) -> Seq<Seq<char>> {
    v.map_values(|s: String| s@)
}

/// The contents of a vector of character vectors.
pub open spec fn views(v: Seq<Vec<char>>) -> Seq<Seq<char>> {
    v.map_values(|w: Vec<char>| w@)
}

/// Length of the run of non-whitespace characters that starts `s`.
pub open spec fn word_len(s: Seq<char>) -> nat
    decreases s.len(),
{
    if s.len() == 0 || is_ws(s[0]) {
        0
    } else {
        1 + word_len(s.drop_first())
    }
}

pub proof fn lemma_word_len(s: Seq<char>, k: int)
    requires
        0 <= k <= s.len(),
        forall|j: int| 0 <= j < k ==> !is_ws(#[trigger] s[j]),
        k == s.len() || is_ws(s[k]),
    ensures
        word_len(s) == k,
    decreases k,
{
    if k > 0 {
        assert forall|j: int| 0 <= j < k - 1 implies !is_ws(#[trigger] s.drop_first()[j]) by {
            assert(s.drop_first()[j] == s[j + 1]);
        }
        lemma_word_len(s.drop_first(), k - 1);
    }
}

pub proof fn lemma_word_len_bound(s: Seq<char>)
    ensures
        word_len(s) <= s.len(),
        s.len() > 0 && !is_ws(s[0]) ==> word_len(s) >= 1,
    decreases s.len(),
{
    if s.len() > 0 && !is_ws(s[0]) {
        lemma_word_len_bound(s.drop_first());
    }
}

/// `str::split_whitespace`: the maximal runs of non-whitespace characters.
pub open spec fn words(s: Seq<char>) -> Seq<Seq<char>>
    decreases s.len(),
{
    if s.len() == 0 {
        seq![]
    } else if is_ws(s[0]) {
        words(s.drop_first())
    } else {
        proof {
            lemma_word_len_bound(s);
        }
        seq![s.take(word_len(s) as int)] + words(s.skip(word_len(s) as int))
    }
}

/// Splits the characters at whitespace, as `str::split_whitespace` does.
pub fn split_words(cs: &Vec<char>) -> (out: Vec<Vec<char>>)
    ensures
        views(out@) == words(cs@),
{
    let n = cs.len();
    let mut out: Vec<Vec<char>> = Vec::new();
    let mut i: usize = 0;
    assert(cs@.skip(0) =~= cs@);
    while i < n
        invariant
            n == cs.len(),
            i <= n,
            words(cs@) == views(out@) + words(cs@.skip(i as int)),
        decreases n - i,
    {
        if is_whitespace(cs[i]) {
            assert(cs@.skip(i as int).drop_first() =~= cs@.skip(i + 1));
            i = i + 1;
        } else {
            let start = i;
            let mut w: Vec<char> = Vec::new();
            while i < n && !is_whitespace(cs[i])
                invariant
                    n == cs.len(),
                    start <= i <= n,
                    w@ == cs@.subrange(start as int, i as int),
                    forall|j: int| start <= j < i ==> !is_ws(#[trigger] cs@[j]),
                decreases n - i,
            {
                w.push(cs[i]);
                i = i + 1;
                assert(w@ =~= cs@.subrange(start as int, i as int));
            }
            let ghost rest = cs@.skip(start as int);
            proof {
                assert forall|j: int| 0 <= j < i - start implies !is_ws(#[trigger] rest[j]) by {
                    assert(rest[j] == cs@[start + j]);
                }
                lemma_word_len(rest, i - start);
                assert(rest.take(i - start) =~= w@);
                assert(rest.skip(i - start) =~= cs@.skip(i as int));
            }
            let ghost old_out = out@;
            out.push(w);
            assert(views(out@) =~= views(old_out) + seq![w@]);
        }
    }
    assert(cs@.skip(n as int) =~= Seq::<char>::empty());
    assert(views(out@) + words(Seq::<char>::empty()) =~= views(out@));
    out
}


/// Index of the first `'\n'` in `s`, or `s.len()` when there is none.
pub open spec fn line_end(s: Seq<char>) -> nat
    decreases s.len(),
{
    if s.len() == 0 || s[0] == '\n' {
        0
    } else {
        1 + line_end(s.drop_first())
    }
}

pub proof fn lemma_line_end(s: Seq<char>, k: int)
    requires
        0 <= k <= s.len(),
        forall|j: int| 0 <= j < k ==> #[trigger] s[j] != '\n',
        k == s.len() || s[k] == '\n',
    ensures
        line_end(s) == k,
    decreases k,
{
    if k > 0 {
        assert forall|j: int| 0 <= j < k - 1 implies #[trigger] s.drop_first()[j] != '\n' by {
            assert(s.drop_first()[j] == s[j + 1]);
        }
        lemma_line_end(s.drop_first(), k - 1);
    }
}

pub proof fn lemma_line_end_bound(s: Seq<char>)
    ensures
        line_end(s) <= s.len(),
    decreases s.len(),
{
    if s.len() > 0 && s[0] != '\n' {
        lemma_line_end_bound(s.drop_first());
    }
}

/// `line_end` is the first `'\n'`, or the length when there is none.
pub proof fn lemma_line_end_props(s: Seq<char>)
    ensures
        line_end(s) <= s.len(),
        forall|j: int| 0 <= j < line_end(s) ==> #[trigger] s[j] != '\n',
        line_end(s) == s.len() || s[line_end(s) as int] == '\n',
    decreases s.len(),
{
    if s.len() > 0 && s[0] != '\n' {
        lemma_line_end_props(s.drop_first());
        assert forall|j: int| 0 <= j < line_end(s) implies #[trigger] s[j] != '\n' by {
            if j > 0 {
                assert(s[j] == s.drop_first()[j - 1]);
            }
        }
        if line_end(s) < s.len() {
            assert(s[line_end(s) as int] == s.drop_first()[line_end(s) - 1]);
        }
    }
}

/// Text that ends a line (or is empty) splits into its own lines followed by
/// those of what comes after it.
pub proof fn lemma_lines_concat(a: Seq<char>, b: Seq<char>)
    requires
        a.len() == 0 || a.last() == '\n',
    ensures
        lines(a + b) == lines(a) + lines(b),
    decreases a.len(),
{
    if a.len() == 0 {
        assert(a + b =~= b);
        assert(lines(a) + lines(b) =~= lines(b));
    } else {
        let s = a + b;
        lemma_line_end_props(a);
        let k = line_end(a) as int;
        if k == a.len() {
            assert(a[a.len() - 1] != '\n');
        }
        assert(k < a.len());
        assert forall|j: int| 0 <= j < k implies #[trigger] s[j] != '\n' by {
            assert(s[j] == a[j]);
        }
        assert(s[k] == a[k]);
        lemma_line_end(s, k);
        let rest = a.skip(k + 1);
        if rest.len() > 0 {
            assert(rest.last() == a.last());
        }
        lemma_lines_concat(rest, b);
        assert(s.take(k) =~= a.take(k));
        assert(s.skip(k + 1) =~= rest + b);
        assert(lines(s) == seq![strip_cr(s.take(k))] + lines(s.skip(k + 1)));
        assert(lines(a) == seq![strip_cr(a.take(k))] + lines(rest));
        assert(lines(s) =~= lines(a) + lines(b));
    }
}

/// A first line that holds no `'\n'` is followed by the lines of the rest.
pub proof fn lemma_lines_after_first(h: Seq<char>, x: Seq<char>)
    requires
        forall|j: int| 0 <= j < h.len() ==> #[trigger] h[j] != '\n',
    ensures
        skip_first(lines(h + seq!['\n'] + x)) == lines(x),
{
    let s = h + seq!['\n'] + x;
    assert forall|j: int| 0 <= j < h.len() implies #[trigger] s[j] != '\n' by {
        assert(s[j] == h[j]);
    }
    assert(s[h.len() as int] == '\n');
    lemma_line_end(s, h.len() as int);
    assert(s.skip(h.len() as int + 1) =~= x);
    assert(lines(s) == seq![strip_cr(s.take(h.len() as int))] + lines(x));
    assert(lines(s).drop_first() =~= lines(x));
}

/// A line without the `'\r'` that ends it, if any.
pub open spec fn strip_cr(l: Seq<char>) -> Seq<char> {
    if l.len() > 0 && l.last() == '\r' {
        l.drop_last()
    } else {
        l
    }
}

/// `str::lines`: the text split at `"\n"` or `"\r\n"`; a final line ending
/// adds no empty line, and a last line without one keeps any `'\r'`.
pub open spec fn lines(s: Seq<char>) -> Seq<Seq<char>>
    decreases s.len(),
{
    if s.len() == 0 {
        seq![]
    } else {
        proof {
            lemma_line_end_bound(s);
        }
        let k = line_end(s) as int;
        if k == s.len() {
            seq![s]
        } else {
            seq![strip_cr(s.take(k))] + lines(s.skip(k + 1))
        }
    }
}

/// Splits the characters into lines, as `str::lines` does.
pub fn split_lines(cs: &Vec<char>) -> (out: Vec<Vec<char>>)
    ensures
        views(out@) == lines(cs@),
{
    let n = cs.len();
    let mut out: Vec<Vec<char>> = Vec::new();
    let mut i: usize = 0;
    assert(cs@.skip(0) =~= cs@);
    while i < n
        invariant
            n == cs.len(),
            i <= n,
            lines(cs@) == views(out@) + lines(cs@.skip(i as int)),
        decreases n - i,
    {
        let start = i;
        let mut w: Vec<char> = Vec::new();
        while i < n && cs[i] != '\n'
            invariant
                n == cs.len(),
                start <= i <= n,
                w@ == cs@.subrange(start as int, i as int),
                forall|j: int| start <= j < i ==> #[trigger] cs@[j] != '\n',
            decreases n - i,
        {
            w.push(cs[i]);
            i = i + 1;
            assert(w@ =~= cs@.subrange(start as int, i as int));
        }
        let ghost rest = cs@.skip(start as int);
        proof {
            assert forall|j: int| 0 <= j < i - start implies #[trigger] rest[j] != '\n' by {
                assert(rest[j] == cs@[start + j]);
            }
            lemma_line_end(rest, i - start);
            assert(rest.take(i - start) =~= w@);
        }
        let ghost old_out = out@;
        if i == n {
            assert(rest =~= w@);
            out.push(w);
            assert(views(out@) =~= views(old_out) + seq![w@]);
            assert(cs@.skip(n as int) =~= Seq::<char>::empty());
        } else {
            if w.len() > 0 && w[w.len() - 1] == '\r' {
                w.pop();
            }
            assert(rest.skip(i - start + 1) =~= cs@.skip(i + 1));
            out.push(w);
            assert(views(out@) =~= views(old_out) + seq![w@]);
            i = i + 1;
        }
    }
    assert(cs@.skip(n as int) =~= Seq::<char>::empty());
    assert(views(out@) + lines(Seq::<char>::empty()) =~= views(out@));
    out
}

pub open spec fn is_digit(c: char) -> bool {
    '0' <= c && c <= '9'
}

pub open spec fn digit_val(c: char) -> int {
    c as int - '0' as int
}

pub open spec fn all_digits(s: Seq<char>) -> bool {
    forall|i: int| 0 <= i < s.len() ==> is_digit(#[trigger] s[i])
}

/// The number that a string of decimal digits denotes.
pub open spec fn digits_value(s: Seq<char>) -> int
    decreases s.len(),
{
    if s.len() == 0 {
        0
    } else {
        10 * digits_value(s.drop_last()) + digit_val(s.last())
    }
}

pub proof fn lemma_digits_value_nonneg(s: Seq<char>)
    requires
        all_digits(s),
    ensures
        digits_value(s) >= 0,
    decreases s.len(),
{
    if s.len() > 0 {
        lemma_digits_value_nonneg(s.drop_last());
    }
}

/// A non-empty run of decimal digits and its value.
pub open spec fn unsigned_value(d: Seq<char>) -> Option<int> {
    if d.len() > 0 && all_digits(d) {
        Some(digits_value(d))
    } else {
        None
    }
}

/// The value that `str::parse` gives an integer text, before the range check
/// of the target type: an optional `'+'` (or `'-'` for a signed type), then at
/// least one ASCII digit.
pub open spec fn int_text_value(s: Seq<char>, signed: bool) -> Option<int> {
    if s.len() > 0 && s[0] == '+' {
        unsigned_value(s.drop_first())
    } else if signed && s.len() > 0 && s[0] == '-' {
        match unsigned_value(s.drop_first()) {
            Some(v) => Some(-v),
            None => None,
        }
    } else {
        unsigned_value(s)
    }
}

/// `str::parse::<u16>`.
pub open spec fn spec_parse_u16(s: Seq<char>) -> Option<u16> {
    match int_text_value(s, false) {
        Some(v) => if 0 <= v <= u16::MAX {
            Some(v as u16)
        } else {
            None
        },
        None => None,
    }
}

/// `str::parse::<i32>`.
pub open spec fn spec_parse_i32(s: Seq<char>) -> Option<i32> {
    match int_text_value(s, true) {
        Some(v) => if i32::MIN <= v <= i32::MAX {
            Some(v as i32)
        } else {
            None
        },
        None => None,
    }
}

/// The value of the digits `cs[start..]` when they are all digits, there is at
/// least one, and the value is at most `limit`.
fn digits_upto(cs: &Vec<char>, start: usize, limit: u64) -> (r: Option<u64>)
    requires
        start <= cs.len(),
        limit < 0x1000_0000_0000_0000,
    ensures
        match r {
            Some(v) => unsigned_value(cs@.skip(start as int)) == Some(v as int) && v <= limit,
            None => match unsigned_value(cs@.skip(start as int)) {
                Some(v) => v > limit,
                None => true,
            },
        },
{
    let n = cs.len();
    if start == n {
        return None;
    }
    let mut acc: u64 = 0;
    let mut over = false;
    let mut i = start;
    assert(cs@.subrange(start as int, start as int) =~= Seq::<char>::empty());
    while i < n
        invariant
            n == cs.len(),
            start <= i <= n,
            all_digits(cs@.subrange(start as int, i as int)),
            !over ==> acc as int == digits_value(cs@.subrange(start as int, i as int)) && acc <= limit,
            over ==> digits_value(cs@.subrange(start as int, i as int)) > limit,
            limit < 0x1000_0000_0000_0000,
        decreases n - i,
    {
        let c = cs[i];
        if !('0' <= c && c <= '9') {
            proof {
                let d = cs@.skip(start as int);
                assert(d[i - start] == c);
                assert(!is_digit(d[i - start]));
            }
            return None;
        }
        let ghost prev = cs@.subrange(start as int, i as int);
        let ghost next = cs@.subrange(start as int, i + 1);
        proof {
            assert(next.drop_last() =~= prev);
            assert(next.last() == c);
            lemma_digits_value_nonneg(prev);
        }
        if !over {
            let d = (c as u32 - '0' as u32) as u64;
            acc = acc * 10 + d;
            if acc > limit {
                over = true;
            }
        }
        i = i + 1;
    }
    assert(cs@.subrange(start as int, n as int) =~= cs@.skip(start as int));
    if over {
        None
    } else {
        Some(acc)
    }
}

/// Parses a `u16` as `str::parse::<u16>` does.
pub fn parse_u16(cs: &Vec<char>) -> (r: Option<u16>)
    ensures
        r == spec_parse_u16(cs@),
{
    let start: usize = if cs.len() > 0 && cs[0] == '+' {
        1
    } else {
        0
    };
    if start == 1 {
        assert(cs@.skip(1) =~= cs@.drop_first());
    } else {
        assert(cs@.skip(0) =~= cs@);
    }
    match digits_upto(cs, start, 0xffff) {
        Some(v) => Some(v as u16),
        None => None,
    }
}

/// Parses an `i32` as `str::parse::<i32>` does.
pub fn parse_i32(cs: &Vec<char>) -> (r: Option<i32>)
    ensures
        r == spec_parse_i32(cs@),
{
    if cs.len() > 0 && cs[0] == '+' {
        assert(cs@.skip(1) =~= cs@.drop_first());
        match digits_upto(cs, 1, 0x7fff_ffff) {
            Some(v) => Some(v as i32),
            None => None,
        }
    } else if cs.len() > 0 && cs[0] == '-' {
        assert(cs@.skip(1) =~= cs@.drop_first());
        match digits_upto(cs, 1, 0x8000_0000) {
            Some(v) => Some((0 - (v as i64)) as i32),
            None => None,
        }
    } else {
        assert(cs@.skip(0) =~= cs@);
        match digits_upto(cs, 0, 0x7fff_ffff) {
            Some(v) => Some(v as i32),
            None => None,
        }
    }
}

/// Why `str::parse` refuses an integer text (the kinds of std's
/// `ParseIntError` that parsing can give).
#[derive(Debug, Clone, Copy, PartialEq, Eq, Structural)]
pub enum IntParseError {
    /// The text is empty.
    Empty,
    /// A character is not a digit, or a sign stands alone.
    InvalidDigit,
    /// The value is above the type's maximum.
    PosOverflow,
    /// The value is below the type's minimum.
    NegOverflow,
}

/// std's message for each kind, as `ParseIntError` displays it.
pub open spec fn spec_int_error_message(e: IntParseError) -> Seq<char> {
    match e {
        IntParseError::Empty => "cannot parse integer from empty string"@,
        IntParseError::InvalidDigit => "invalid digit found in string"@,
        IntParseError::PosOverflow => "number too large to fit in target type"@,
        IntParseError::NegOverflow => "number too small to fit in target type"@,
    }
}

impl IntParseError {
    /// The error as std displays it.
    pub fn message(&self) -> (s: &'static str)
        ensures
            s@ == spec_int_error_message(*self),
    {
        match self {
            IntParseError::Empty => "cannot parse integer from empty string",
            IntParseError::InvalidDigit => "invalid digit found in string",
            IntParseError::PosOverflow => "number too large to fit in target type",
            IntParseError::NegOverflow => "number too small to fit in target type",
        }
    }
}

/// std reads the digits from the left, with the value so far in `acc`, and
/// stops at the first character that is not a digit or that takes the value
/// past `bound` (then the error is `over`); `None` when it reaches the end.
pub open spec fn digit_scan(d: Seq<char>, acc: int, bound: int, over: IntParseError) -> Option<
    IntParseError,
>
    decreases d.len(),
{
    if d.len() == 0 {
        None
    } else if !is_digit(d[0]) {
        Some(IntParseError::InvalidDigit)
    } else if 10 * acc + digit_val(d[0]) > bound {
        Some(over)
    } else {
        digit_scan(d.drop_first(), 10 * acc + digit_val(d[0]), bound, over)
    }
}

/// The error that `str::parse::<i32>` gives a text it refuses: `Empty` for
/// empty text, `InvalidDigit` for a lone sign, else the first failure of the
/// digit scan after an optional sign (a `'-'` bounds the magnitude by
/// 2147483648 and overflows as `NegOverflow`). On a text that parses, the
/// value is not used.
pub open spec fn spec_i32_error(s: Seq<char>) -> IntParseError {
    if s.len() == 0 {
        IntParseError::Empty
    } else if (s[0] == '+' || s[0] == '-') && s.len() == 1 {
        IntParseError::InvalidDigit
    } else {
        let r = if s[0] == '+' {
            digit_scan(s.drop_first(), 0, 0x7fff_ffff, IntParseError::PosOverflow)
        } else if s[0] == '-' {
            digit_scan(s.drop_first(), 0, 0x8000_0000, IntParseError::NegOverflow)
        } else {
            digit_scan(s, 0, 0x7fff_ffff, IntParseError::PosOverflow)
        };
        match r {
            Some(e) => e,
            None => IntParseError::InvalidDigit,
        }
    }
}

/// The value of a run of digits is at least that of each of its prefixes.
pub proof fn lemma_digits_value_prefix(d: Seq<char>, k: int)
    requires
        all_digits(d),
        0 <= k <= d.len(),
    ensures
        digits_value(d.take(k)) <= digits_value(d),
    decreases d.len(),
{
    if k < d.len() {
        assert(all_digits(d.drop_last()));
        lemma_digits_value_prefix(d.drop_last(), k);
        assert(d.drop_last().take(k) =~= d.take(k));
        lemma_digits_value_nonneg(d.drop_last());
        assert(is_digit(d.last()));
    } else {
        assert(d.take(k) =~= d);
    }
}

/// Scans the digits `cs[start..]` as std does, up to `bound`.
fn scan_digits(cs: &Vec<char>, start: usize, bound: u64, over: IntParseError) -> (r: Result<
    u64,
    IntParseError,
>)
    requires
        start < cs.len(),
        bound <= 0x8000_0000,
    ensures
        match r {
            Ok(v) => digit_scan(cs@.skip(start as int), 0, bound as int, over) is None
                && unsigned_value(cs@.skip(start as int)) == Some(v as int) && v <= bound,
            Err(e) => digit_scan(cs@.skip(start as int), 0, bound as int, over) == Some(e)
                && match unsigned_value(cs@.skip(start as int)) {
                Some(v) => v > bound,
                None => true,
            },
        },
{
    let n = cs.len();
    let ghost d = cs@.skip(start as int);
    let mut acc: u64 = 0;
    let mut i = start;
    assert(cs@.subrange(start as int, start as int) =~= Seq::<char>::empty());
    assert(cs@.skip(start as int) =~= d);
    while i < n
        invariant
            n == cs.len(),
            start <= i <= n,
            d == cs@.skip(start as int),
            bound <= 0x8000_0000,
            all_digits(cs@.subrange(start as int, i as int)),
            acc as int == digits_value(cs@.subrange(start as int, i as int)),
            acc <= bound,
            digit_scan(d, 0, bound as int, over) == digit_scan(
                cs@.skip(i as int),
                acc as int,
                bound as int,
                over,
            ),
        decreases n - i,
    {
        let c = cs[i];
        let ghost rest = cs@.skip(i as int);
        assert(rest[0] == c);
        assert(rest.drop_first() =~= cs@.skip(i + 1));
        if !('0' <= c && c <= '9') {
            proof {
                assert(d[i - start] == c);
                assert(!is_digit(d[i - start]));
            }
            return Err(IntParseError::InvalidDigit);
        }
        let ghost prev = cs@.subrange(start as int, i as int);
        let ghost next = cs@.subrange(start as int, i + 1);
        proof {
            assert(next.drop_last() =~= prev);
            assert(next.last() == c);
            assert(all_digits(next));
        }
        let dv = (c as u32 - '0' as u32) as u64;
        let nacc = acc * 10 + dv;
        if nacc > bound {
            proof {
                if all_digits(d) {
                    assert(d.take(i + 1 - start) =~= next);
                    lemma_digits_value_prefix(d, i + 1 - start);
                }
            }
            return Err(over);
        }
        acc = nacc;
        i = i + 1;
    }
    assert(cs@.subrange(start as int, n as int) =~= d);
    assert(cs@.skip(n as int) =~= Seq::<char>::empty());
    Ok(acc)
}

/// Parses an `i32` as `str::parse::<i32>` does, with std's error kind when it
/// refuses the text.
pub fn parse_i32_or_error(cs: &Vec<char>) -> (r: Result<i32, IntParseError>)
    ensures
        match r {
            Ok(v) => spec_parse_i32(cs@) == Some(v),
            Err(e) => spec_parse_i32(cs@) is None && e == spec_i32_error(cs@),
        },
{
    let n = cs.len();
    if n == 0 {
        return Err(IntParseError::Empty);
    }
    if (cs[0] == '+' || cs[0] == '-') && n == 1 {
        assert(cs@.drop_first() =~= Seq::<char>::empty());
        return Err(IntParseError::InvalidDigit);
    }
    if cs[0] == '+' {
        assert(cs@.skip(1) =~= cs@.drop_first());
        match scan_digits(cs, 1, 0x7fff_ffff, IntParseError::PosOverflow) {
            Ok(v) => Ok(v as i32),
            Err(e) => Err(e),
        }
    } else if cs[0] == '-' {
        assert(cs@.skip(1) =~= cs@.drop_first());
        match scan_digits(cs, 1, 0x8000_0000, IntParseError::NegOverflow) {
            Ok(v) => Ok((0 - (v as i64)) as i32),
            Err(e) => Err(e),
        }
    } else {
        assert(cs@.skip(0) =~= cs@);
        match scan_digits(cs, 0, 0x7fff_ffff, IntParseError::PosOverflow) {
            Ok(v) => Ok(v as i32),
            Err(e) => Err(e),
        }
    }
}

pub open spec fn digit_char(d: nat) -> char {
    ('0' as nat + d) as char
}

/// Decimal notation of a natural number, without leading zeros.
pub open spec fn dec(n: nat) -> Seq<char>
    decreases n,
{
    if n < 10 {
        seq![digit_char(n)]
    } else {
        dec(n / 10).push(digit_char(n % 10))
    }
}

/// Decimal notation of an integer, with a `'-'` when it is negative (what
/// `ToString` gives the integer types).
pub open spec fn dec_int(n: int) -> Seq<char> {
    if n < 0 {
        seq!['-'] + dec((-n) as nat)
    } else {
        dec(n as nat)
    }
}

/// Decimal notation is a non-empty run of digits that denotes the number.
pub proof fn lemma_dec(n: nat)
    ensures
        dec(n).len() > 0,
        all_digits(dec(n)),
        digits_value(dec(n)) == n,
    decreases n,
{
    if n >= 10 {
        lemma_dec(n / 10);
        let d = dec(n);
        assert(d.drop_last() =~= dec(n / 10));
        assert(d.last() == digit_char(n % 10));
        assert(digit_val(digit_char(n % 10)) == n % 10);
        assert(digits_value(d) == 10 * digits_value(d.drop_last()) + digit_val(d.last()));
        assert(digits_value(d) == 10 * (n / 10) + n % 10);
        assert(n == 10 * (n / 10) + n % 10);
    } else {
        let d = dec(n);
        assert(d.drop_last() =~= Seq::<char>::empty());
        assert(digit_val(digit_char(n)) == n);
        assert(digits_value(d) == 10 * digits_value(d.drop_last()) + digit_val(d.last()));
    }
}

/// Integer notation holds no whitespace and is never empty.
pub proof fn lemma_dec_int_token(v: int)
    ensures
        dec_int(v).len() > 0,
        forall|j: int| 0 <= j < dec_int(v).len() ==> !is_ws(#[trigger] dec_int(v)[j]),
{
    let n: nat = if v < 0 {
        (-v) as nat
    } else {
        v as nat
    };
    lemma_dec(n);
    assert forall|j: int| 0 <= j < dec_int(v).len() implies !is_ws(#[trigger] dec_int(v)[j]) by {
        if v < 0 && j > 0 {
            assert(dec_int(v)[j] == dec(n)[j - 1]);
            assert(is_digit(dec(n)[j - 1]));
        } else if v >= 0 {
            assert(is_digit(dec(n)[j]));
        }
    }
}

/// `str::parse::<i32>` reads back what `ToString` writes.
pub proof fn lemma_parse_i32_dec_int(v: i32)
    ensures
        spec_parse_i32(dec_int(v as int)) == Some(v),
{
    if v < 0 {
        let n: nat = (-v) as nat;
        lemma_dec(n);
        assert(dec_int(v as int).drop_first() =~= dec(n));
        assert(int_text_value(dec_int(v as int), true) == Some(-(n as int)));
    } else {
        lemma_dec(v as nat);
        assert(is_digit(dec(v as nat)[0]));
        assert(int_text_value(dec_int(v as int), true) == Some(v as int));
    }
}

/// A run of non-whitespace followed by whitespace (or nothing) is the first
/// word.
pub proof fn lemma_words_token(t: Seq<char>, rest: Seq<char>)
    requires
        t.len() > 0,
        forall|j: int| 0 <= j < t.len() ==> !is_ws(#[trigger] t[j]),
        rest.len() == 0 || is_ws(rest[0]),
    ensures
        words(t + rest) == seq![t] + words(rest),
{
    let s = t + rest;
    assert forall|j: int| 0 <= j < t.len() implies !is_ws(#[trigger] s[j]) by {
        assert(s[j] == t[j]);
    }
    if rest.len() > 0 {
        assert(s[t.len() as int] == rest[0]);
    }
    lemma_word_len(s, t.len() as int);
    assert(s.take(t.len() as int) =~= t);
    assert(s.skip(t.len() as int) =~= rest);
    assert(!is_ws(s[0]));
}

/// A leading space separates words and adds none.
pub proof fn lemma_words_space(rest: Seq<char>)
    ensures
        words(seq![' '] + rest) == words(rest),
{
    let s = seq![' '] + rest;
    assert(s.drop_first() =~= rest);
    assert(is_ws(s[0]));
}

/// A word: non-empty text without whitespace.
pub open spec fn is_token(t: Seq<char>) -> bool {
    t.len() > 0 && forall|j: int| 0 <= j < t.len() ==> !is_ws(#[trigger] t[j])
}

/// `word_len` ends at the first whitespace, or at the end.
pub proof fn lemma_word_len_props(s: Seq<char>)
    ensures
        word_len(s) <= s.len(),
        forall|j: int| 0 <= j < word_len(s) ==> !is_ws(#[trigger] s[j]),
        word_len(s) == s.len() || is_ws(s[word_len(s) as int]),
    decreases s.len(),
{
    if s.len() > 0 && !is_ws(s[0]) {
        lemma_word_len_props(s.drop_first());
        assert forall|j: int| 0 <= j < word_len(s) implies !is_ws(#[trigger] s[j]) by {
            if j > 0 {
                assert(s[j] == s.drop_first()[j - 1]);
            }
        }
        if word_len(s) < s.len() {
            assert(s[word_len(s) as int] == s.drop_first()[word_len(s) - 1]);
        }
    }
}

/// A space between two texts separates their words: the words of the whole
/// are the words of the first followed by those of the second.
pub proof fn lemma_words_concat(a: Seq<char>, b: Seq<char>)
    ensures
        words(a + seq![' '] + b) == words(a) + words(b),
    decreases a.len(),
{
    let s = a + seq![' '] + b;
    if a.len() == 0 {
        assert(s =~= seq![' '] + b);
        lemma_words_space(b);
        assert(words(a) + words(b) =~= words(b));
    } else if is_ws(a[0]) {
        assert(s[0] == a[0]);
        assert(s.drop_first() =~= a.drop_first() + seq![' '] + b);
        lemma_words_concat(a.drop_first(), b);
    } else {
        lemma_word_len_props(a);
        let k = word_len(a) as int;
        lemma_word_len_bound(a);
        if k == a.len() {
            assert(is_token(a));
            lemma_words_token(a, seq![' '] + b);
            assert(s =~= a + (seq![' '] + b));
            lemma_words_space(b);
            lemma_words_token(a, Seq::<char>::empty());
            assert(a + Seq::<char>::empty() =~= a);
            assert(words(Seq::<char>::empty()) =~= Seq::<Seq<char>>::empty());
            assert(words(a) + words(b) =~= seq![a] + words(b));
        } else {
            assert forall|j: int| 0 <= j < k implies !is_ws(#[trigger] s[j]) by {
                assert(s[j] == a[j]);
            }
            assert(s[k] == a[k]);
            lemma_word_len(s, k);
            assert(s.take(k) =~= a.take(k));
            assert(s.skip(k) =~= a.skip(k) + seq![' '] + b);
            lemma_words_concat(a.skip(k), b);
            assert(words(s) == seq![s.take(k)] + words(s.skip(k)));
            assert(words(a) == seq![a.take(k)] + words(a.skip(k)));
            assert(words(s) =~= words(a) + words(b));
        }
    }
}

/// Joining words with single spaces joins the two halves with one space.
pub proof fn lemma_join_spaced_concat(x: Seq<Seq<char>>, y: Seq<Seq<char>>)
    requires
        x.len() > 0,
        y.len() > 0,
    ensures
        join_spaced(x + y) == join_spaced(x) + seq![' '] + join_spaced(y),
    decreases y.len(),
{
    if y.len() == 1 {
        assert((x + y).drop_last() =~= x);
        assert((x + y).last() == y[0]);
    } else {
        lemma_join_spaced_concat(x, y.drop_last());
        assert((x + y).drop_last() =~= x + y.drop_last());
        assert((x + y).last() == y.last());
        assert(join_spaced(x + y) =~= join_spaced(x) + seq![' '] + join_spaced(y));
    }
}

/// Words joined by single spaces split back into the same words.
pub proof fn lemma_words_join_spaced(ts: Seq<Seq<char>>)
    requires
        forall|i: int| 0 <= i < ts.len() ==> is_token(#[trigger] ts[i]),
    ensures
        words(join_spaced(ts)) == ts,
    decreases ts.len(),
{
    if ts.len() == 0 {
        assert(words(join_spaced(ts)) =~= ts);
    } else {
        let t = ts.last();
        assert(is_token(t));
        lemma_words_token(t, Seq::<char>::empty());
        assert(t + Seq::<char>::empty() =~= t);
        assert(words(Seq::<char>::empty()) =~= Seq::<Seq<char>>::empty());
        assert(words(t) =~= seq![t]);
        if ts.len() == 1 {
            assert(ts =~= seq![t]);
        } else {
            lemma_words_join_spaced(ts.drop_last());
            lemma_words_concat(join_spaced(ts.drop_last()), t);
            assert(words(join_spaced(ts)) =~= ts.drop_last() + seq![t]);
            assert(ts =~= ts.drop_last() + seq![t]);
        }
    }
}

/// Integer notation is made of digits and a leading `'-'` only.
pub proof fn lemma_dec_int_chars(v: int)
    ensures
        forall|j: int| 0 <= j < dec_int(v).len() ==> is_digit(#[trigger] dec_int(v)[j]) || dec_int(
            v,
        )[j] == '-',
{
    let n: nat = if v < 0 {
        (-v) as nat
    } else {
        v as nat
    };
    lemma_dec(n);
    assert forall|j: int| 0 <= j < dec_int(v).len() implies is_digit(#[trigger] dec_int(v)[j])
        || dec_int(v)[j] == '-' by {
        if v < 0 && j > 0 {
            assert(dec_int(v)[j] == dec(n)[j - 1]);
        }
    }
}

/// `str::parse::<u16>` reads back what `ToString` writes.
pub proof fn lemma_parse_u16_dec(p: u16)
    ensures
        spec_parse_u16(dec(p as nat)) == Some(p),
{
    lemma_dec(p as nat);
    assert(is_digit(dec(p as nat)[0]));
}

/// The text after the last `c` of `a + c + t`, where `t` holds no `c`, is `t`.
pub proof fn lemma_after_last_suffix(a: Seq<char>, c: char, t: Seq<char>)
    requires
        forall|j: int| 0 <= j < t.len() ==> #[trigger] t[j] != c,
    ensures
        after_last(a + seq![c] + t, c) == t,
    decreases t.len(),
{
    let s = a + seq![c] + t;
    if t.len() == 0 {
        assert(s.last() == c);
    } else {
        assert(s.last() == t.last());
        assert(s.drop_last() =~= a + seq![c] + t.drop_last());
        lemma_after_last_suffix(a, c, t.drop_last());
        assert(t.drop_last().push(t.last()) =~= t);
    }
}

/// Decimal digits of `n`.
pub fn fmt_u64(n: u64) -> (v: Vec<char>)
    ensures
        v@ == dec(n as nat),
    decreases n,
{
    if n < 10 {
        let c = char_of_digit(n);
        let mut v: Vec<char> = Vec::new();
        v.push(c);
        assert(v@ =~= seq![digit_char(n as nat)]);
        v
    } else {
        let mut v = fmt_u64(n / 10);
        v.push(char_of_digit(n % 10));
        v
    }
}

fn char_of_digit(d: u64) -> (c: char)
    requires
        d < 10,
    ensures
        c == digit_char(d as nat),
{
    if d == 0 { '0' } else if d == 1 { '1' } else if d == 2 { '2' } else if d == 3 { '3' }
    else if d == 4 { '4' } else if d == 5 { '5' } else if d == 6 { '6' } else if d == 7 { '7' }
    else if d == 8 { '8' } else { '9' }
}

/// Decimal notation of `n`, as `i64::to_string` writes it.
pub fn fmt_i64(n: i64) -> (v: Vec<char>)
    ensures
        v@ == dec_int(n as int),
{
    if n < 0 {
        let m: u64 = if n == i64::MIN {
            0x8000_0000_0000_0000
        } else {
            (-n) as u64
        };
        let digits = fmt_u64(m);
        let mut v: Vec<char> = Vec::new();
        v.push('-');
        let mut i: usize = 0;
        while i < digits.len()
            invariant
                i <= digits.len(),
                v@ == seq!['-'] + digits@.take(i as int),
            decreases digits.len() - i,
        {
            v.push(digits[i]);
            i = i + 1;
            assert(v@ =~= seq!['-'] + digits@.take(i as int));
        }
        assert(digits@.take(digits.len() as int) =~= digits@);
        v
    } else {
        fmt_u64(n as u64)
    }
}


/// Appends the given characters to a `String`.
pub fn push_chars(s: &mut String, cs: &Vec<char>)
    ensures
        final(s)@ == old(s)@ + cs@,
{
    let mut i: usize = 0;
    while i < cs.len()
        invariant
            i <= cs.len(),
            s@ == old(s)@ + cs@.take(i as int),
        decreases cs.len() - i,
    {
        push_char(s, cs[i]);
        i = i + 1;
        assert(s@ =~= old(s)@ + cs@.take(i as int));
    }
    assert(cs@.take(cs.len() as int) =~= cs@);
}

/// Appends a string slice to a `String`.
pub fn push_str(s: &mut String, t: &str)
    ensures
        final(s)@ == old(s)@ + t@,
{
    let cs = chars_of(t);
    push_chars(s, &cs);
}

/// Appends the characters of `t` to a character vector.
pub fn extend_chars(v: &mut Vec<char>, t: &Vec<char>)
    ensures
        final(v)@ == old(v)@ + t@,
{
    let mut i: usize = 0;
    while i < t.len()
        invariant
            i <= t.len(),
            v@ == old(v)@ + t@.take(i as int),
        decreases t.len() - i,
    {
        v.push(t[i]);
        i = i + 1;
        assert(v@ =~= old(v)@ + t@.take(i as int));
    }
    assert(t@.take(t.len() as int) =~= t@);
}

/// Whether `p` occurs in `s` at position `i`.
pub open spec fn matches_at(s: Seq<char>, p: Seq<char>, i: int) -> bool {
    0 <= i && i + p.len() <= s.len() && s.subrange(i, i + p.len()) == p
}

/// `str::contains` for a string pattern.
pub open spec fn contains_seq(s: Seq<char>, p: Seq<char>) -> bool {
    exists|i: int| matches_at(s, p, i)
}

/// The first position at or after `i` where `p` occurs in `s`.
pub open spec fn find_from(s: Seq<char>, p: Seq<char>, i: int) -> Option<int>
    decreases s.len() - i,
{
    if i < 0 || i > s.len() || i + p.len() > s.len() {
        None
    } else if matches_at(s, p, i) {
        Some(i)
    } else if i == s.len() {
        None
    } else {
        find_from(s, p, i + 1)
    }
}

pub proof fn lemma_find_from(s: Seq<char>, p: Seq<char>, i: int)
    requires
        0 <= i,
    ensures
        find_from(s, p, i) matches Some(k) ==> i <= k && matches_at(s, p, k) && forall|j: int|
            i <= j < k ==> !matches_at(s, p, j),
        find_from(s, p, i) is None ==> forall|j: int| i <= j ==> !matches_at(s, p, j),
    decreases s.len() - i,
{
    if i < s.len() && i + p.len() <= s.len() && !matches_at(s, p, i) {
        lemma_find_from(s, p, i + 1);
    } else if i == s.len() && p.len() == 0 {
        assert(s.subrange(i, i) =~= p);
    }
}

/// The first position of `p` in `s`, as `str::find` gives it.
pub fn find(s: &Vec<char>, p: &Vec<char>) -> (r: Option<usize>)
    ensures
        r matches Some(k) ==> find_from(s@, p@, 0) == Some(k as int),
        r is None ==> find_from(s@, p@, 0) is None,
{
    let n = s.len();
    let m = p.len();
    if m > n {
        return None;
    }
    let mut i: usize = 0;
    while i <= n - m
        invariant
            n == s.len(),
            m == p.len(),
            m <= n,
            i <= n - m + 1,
            find_from(s@, p@, 0) == find_from(s@, p@, i as int),
        decreases n - i,
    {
        let mut j: usize = 0;
        let mut ok = true;
        while j < m
            invariant
                n == s.len(),
                m == p.len(),
                i + m <= n,
                j <= m,
                ok == (forall|k: int| 0 <= k < j ==> s@[i + k] == p@[k]),
            decreases m - j,
        {
            if s[i + j] != p[j] {
                ok = false;
            }
            j = j + 1;
        }
        if ok {
            assert(s@.subrange(i as int, i + m) =~= p@);
            return Some(i);
        }
        assert(!matches_at(s@, p@, i as int)) by {
            if matches_at(s@, p@, i as int) {
                assert forall|k: int| 0 <= k < m implies s@[i + k] == p@[k] by {
                    assert(s@.subrange(i as int, i + m)[k] == s@[i + k]);
                }
            }
        }
        i = i + 1;
    }
    None
}

/// `str::contains` for a string pattern.
pub fn contains(s: &Vec<char>, p: &Vec<char>) -> (b: bool)
    ensures
        b == contains_seq(s@, p@),
{
    proof {
        lemma_find_from(s@, p@, 0);
    }
    match find(s, p) {
        Some(_) => true,
        None => false,
    }
}

/// The part after the last `c`, or all of `s` when `c` does not occur (the
/// first piece that `str::rsplit(c)` yields).
pub open spec fn after_last(s: Seq<char>, c: char) -> Seq<char>
    decreases s.len(),
{
    if s.len() == 0 {
        s
    } else if s.last() == c {
        Seq::empty()
    } else {
        after_last(s.drop_last(), c).push(s.last())
    }
}

/// The first piece that `str::rsplit(c)` yields.
pub fn rsplit_first(s: &Vec<char>, c: char) -> (r: Vec<char>)
    ensures
        r@ == after_last(s@, c),
{
    let mut i: usize = s.len();
    assert(s@.take(i as int) =~= s@);
    assert(s@.skip(i as int) =~= Seq::<char>::empty());
    assert(after_last(s@, c) + Seq::<char>::empty() =~= after_last(s@, c));
    while i > 0 && s[i - 1] != c
        invariant
            i <= s.len(),
            after_last(s@, c) == after_last(s@.take(i as int), c) + s@.skip(i as int),
        decreases i,
    {
        proof {
            let t = s@.take(i as int);
            assert(t.drop_last() =~= s@.take(i - 1));
            assert(t.last() == s@[i - 1]);
            assert(s@.skip(i - 1) =~= seq![s@[i - 1]] + s@.skip(i as int));
            assert(after_last(t, c) =~= after_last(s@.take(i - 1), c).push(s@[i - 1]));
            assert(after_last(s@.take(i - 1), c).push(s@[i - 1]) + s@.skip(i as int)
                =~= after_last(s@.take(i - 1), c) + s@.skip(i - 1));
        }
        i = i - 1;
    }
    let mut r: Vec<char> = Vec::new();
    let mut j = i;
    while j < s.len()
        invariant
            i <= j <= s.len(),
            r@ == s@.subrange(i as int, j as int),
        decreases s.len() - j,
    {
        r.push(s[j]);
        j = j + 1;
        assert(r@ =~= s@.subrange(i as int, j as int));
    }
    proof {
        assert(s@.subrange(i as int, s.len() as int) =~= s@.skip(i as int));
        if i == 0 {
            assert(s@.take(0) =~= Seq::<char>::empty());
            assert(after_last(s@.take(0), c) =~= Seq::<char>::empty());
        } else {
            let t = s@.take(i as int);
            assert(t.last() == c);
            assert(after_last(t, c) =~= Seq::<char>::empty());
        }
        assert(after_last(s@, c) =~= r@);
    }
    r
}

/// The characters before the first occurrence of `p`, or all of `s` (the
/// first piece that `str::split(p)` yields).
pub open spec fn before_first(s: Seq<char>, p: Seq<char>) -> Seq<char> {
    match find_from(s, p, 0) {
        Some(k) => s.take(k),
        None => s,
    }
}

/// The characters after the first occurrence of `p`, if there is one.
pub open spec fn after_first(s: Seq<char>, p: Seq<char>) -> Option<Seq<char>> {
    match find_from(s, p, 0) {
        Some(k) => Some(s.skip(k + p.len())),
        None => None,
    }
}

/// A copy of `s[from..to]`.
pub fn slice_chars(s: &Vec<char>, from: usize, to: usize) -> (r: Vec<char>)
    requires
        from <= to <= s.len(),
    ensures
        r@ == s@.subrange(from as int, to as int),
{
    let mut r: Vec<char> = Vec::new();
    let mut j = from;
    while j < to
        invariant
            from <= j <= to <= s.len(),
            r@ == s@.subrange(from as int, j as int),
        decreases to - j,
    {
        r.push(s[j]);
        j = j + 1;
        assert(r@ =~= s@.subrange(from as int, j as int));
    }
    r
}

/// The first piece that `str::split(p)` yields.
pub fn split_first(s: &Vec<char>, p: &Vec<char>) -> (r: Vec<char>)
    ensures
        r@ == before_first(s@, p@),
{
    proof {
        lemma_find_from(s@, p@, 0);
    }
    match find(s, p) {
        Some(k) => {
            let r = slice_chars(s, 0, k);
            assert(r@ =~= s@.take(k as int));
            r
        },
        None => slice_chars(s, 0, s.len()),
    }
}

/// What follows the first occurrence of `p` in `s`.
pub fn split_after(s: &Vec<char>, p: &Vec<char>) -> (r: Option<Vec<char>>)
    ensures
        match r {
            Some(v) => after_first(s@, p@) == Some(v@),
            None => after_first(s@, p@) is None,
        },
{
    proof {
        lemma_find_from(s@, p@, 0);
    }
    match find(s, p) {
        Some(k) => {
            assert(matches_at(s@, p@, k as int));
            let pl = p.len();
            let sl = s.len();
            assert(k + pl <= sl);
            let r = slice_chars(s, k + pl, sl);
            assert(r@ =~= s@.skip(k + p.len()));
            Some(r)
        },
        None => None,
    }
}

/// The words joined with single spaces (`slice::join(" ")`).
pub open spec fn join_spaced(ws: Seq<Seq<char>>) -> Seq<char>
    decreases ws.len(),
{
    if ws.len() == 0 {
        Seq::empty()
    } else if ws.len() == 1 {
        ws[0]
    } else {
        join_spaced(ws.drop_last()) + seq![' '] + ws.last()
    }
}

/// Joins `ws[from..]` with single spaces.
pub fn join_words_from(ws: &Vec<Vec<char>>, from: usize) -> (r: Vec<char>)
    requires
        from <= ws.len(),
    ensures
        r@ == join_spaced(views(ws@).skip(from as int)),
{
    let mut r: Vec<char> = Vec::new();
    if from == ws.len() {
        assert(views(ws@).skip(from as int) =~= Seq::<Seq<char>>::empty());
        return r;
    }
    let mut i = from;
    while i < ws.len()
        invariant
            from <= i <= ws.len(),
            r@ == join_spaced(views(ws@).subrange(from as int, i as int)),
        decreases ws.len() - i,
    {
        let ghost part = views(ws@).subrange(from as int, i + 1);
        assert(part.drop_last() =~= views(ws@).subrange(from as int, i as int));
        if i > from {
            r.push(' ');
        } else {
            assert(part =~= seq![ws@[i as int]@]);
        }
        extend_chars(&mut r, &ws[i]);
        i = i + 1;
    }
    assert(views(ws@).subrange(from as int, ws.len() as int) =~= views(ws@).skip(from as int));
    r
}

/// Drops the leading whitespace (`str::trim_start`).
pub open spec fn trim_start(s: Seq<char>) -> Seq<char>
    decreases s.len(),
{
    if s.len() > 0 && is_ws(s[0]) {
        trim_start(s.drop_first())
    } else {
        s
    }
}

/// Drops the trailing whitespace (`str::trim_end`).
pub open spec fn trim_end(s: Seq<char>) -> Seq<char>
    decreases s.len(),
{
    if s.len() > 0 && is_ws(s.last()) {
        trim_end(s.drop_last())
    } else {
        s
    }
}

/// `str::trim`.
pub open spec fn trim(s: Seq<char>) -> Seq<char> {
    trim_end(trim_start(s))
}

/// `str::trim`.
pub fn trim_chars(s: &Vec<char>) -> (r: Vec<char>)
    ensures
        r@ == trim(s@),
{
    let mut a: usize = 0;
    assert(s@.skip(0) =~= s@);
    while a < s.len() && is_whitespace(s[a])
        invariant
            a <= s.len(),
            trim_start(s@) == trim_start(s@.skip(a as int)),
        decreases s.len() - a,
    {
        assert(s@.skip(a as int).drop_first() =~= s@.skip(a + 1));
        a = a + 1;
    }
    let mut b: usize = s.len();
    assert(s@.skip(a as int).take((b - a) as int) =~= s@.skip(a as int));
    while b > a && is_whitespace(s[b - 1])
        invariant
            a <= b <= s.len(),
            trim(s@) == trim_end(s@.subrange(a as int, b as int)),
            a == s.len() || !is_ws(s@[a as int]),
        decreases b,
    {
        assert(s@.subrange(a as int, b as int).drop_last() =~= s@.subrange(a as int, b - 1));
        b = b - 1;
    }
    let r = slice_chars(s, a, b);
    proof {
        if b > a {
            assert(r@.last() == s@[b - 1]);
        }
    }
    r
}

/// Whether the text is empty once trimmed (`str::trim().is_empty()`).
pub open spec fn is_blank(s: Seq<char>) -> bool {
    forall|i: int| 0 <= i < s.len() ==> is_ws(#[trigger] s[i])
}

pub proof fn lemma_blank_trim(s: Seq<char>)
    ensures
        is_blank(s) <==> trim(s).len() == 0,
    decreases s.len(),
{
    if s.len() > 0 && is_ws(s[0]) {
        lemma_blank_trim(s.drop_first());
        if is_blank(s.drop_first()) {
            assert(is_blank(s)) by {
                assert forall|i: int| 0 <= i < s.len() implies is_ws(#[trigger] s[i]) by {
                    if i > 0 {
                        assert(s[i] == s.drop_first()[i - 1]);
                    }
                }
            }
        }
        if is_blank(s) {
            assert forall|i: int| 0 <= i < s.drop_first().len() implies is_ws(
                #[trigger] s.drop_first()[i],
            ) by {
                assert(s.drop_first()[i] == s[i + 1]);
            }
        }
    } else if s.len() > 0 {
        lemma_trim_end_keeps_first(s);
    }
}

proof fn lemma_trim_end_keeps_first(s: Seq<char>)
    requires
        s.len() > 0,
        !is_ws(s[0]),
    ensures
        trim_end(s).len() > 0,
    decreases s.len(),
{
    if is_ws(s.last()) {
        assert(s.len() > 1);
        assert(s.drop_last()[0] == s[0]);
        lemma_trim_end_keeps_first(s.drop_last());
    }
}

/// Whether the text holds only whitespace.
pub fn blank(s: &Vec<char>) -> (b: bool)
    ensures
        b == is_blank(s@),
        b == (trim(s@).len() == 0),
{
    proof {
        lemma_blank_trim(s@);
    }
    let mut i: usize = 0;
    while i < s.len()
        invariant
            i <= s.len(),
            forall|j: int| 0 <= j < i ==> is_ws(#[trigger] s@[j]),
            is_blank(s@) <==> trim(s@).len() == 0,
        decreases s.len() - i,
    {
        if !is_whitespace(s[i]) {
            assert(!is_ws(s@[i as int]));
            return false;
        }
        i = i + 1;
    }
    true
}

/// `s` padded with spaces on the right to `width` characters, as the format
/// spec `{:<width}` writes it.
pub open spec fn pad_right(s: Seq<char>, width: nat) -> Seq<char> {
    if s.len() >= width {
        s
    } else {
        s + Seq::new((width - s.len()) as nat, |i: int| ' ')
    }
}

/// Appends `cs` padded with spaces to `width` characters.
pub fn push_padded(out: &mut String, cs: &Vec<char>, width: usize)
    ensures
        final(out)@ == old(out)@ + pad_right(cs@, width as nat),
{
    push_chars(out, cs);
    let mut k = cs.len();
    while k < width
        invariant
            cs.len() <= k || k == cs.len(),
            k <= width || k == cs.len(),
            out@ == old(out)@ + cs@ + Seq::new((k - cs.len()) as nat, |i: int| ' '),
        decreases width - k,
    {
        push_char(out, ' ');
        k = k + 1;
        assert(out@ =~= old(out)@ + cs@ + Seq::new((k - cs.len()) as nat, |i: int| ' '));
    }
    if cs.len() >= width {
        assert(out@ =~= old(out)@ + cs@);
    } else {
        assert(old(out)@ + cs@ + Seq::new((k - cs.len()) as nat, |i: int| ' ') =~= old(out)@
            + pad_right(cs@, width as nat));
    }
}

/// What `str::to_lowercase` gives for a text (the full Unicode case mapping).
pub uninterp spec fn lowercase(s: Seq<char>) -> Seq<char>;

/// The ASCII lowercase of a character: `A`-`Z` become `a`-`z`, every other
/// character stays.
pub open spec fn ascii_lower(c: char) -> char {
    if 'A' <= c && c <= 'Z' {
        ((c as int) + 32) as char
    } else {
        c
    }
}

/// std's `str::to_lowercase`: its result is a function of the text alone,
/// named `lowercase`. Of its Unicode tables only plain facts are stated:
/// empty text stays empty, and on ASCII text it is the ASCII lowercase
/// (`A`-`Z` become `a`-`z`, the rest stays); the mapping of other characters
/// is left unsaid.
#[verifier::external_body]
pub(crate) fn to_lowercase(s: &Vec<char>) -> (r: Vec<char>)
    ensures
        r@ == lowercase(s@),
        s@.len() == 0 ==> r@.len() == 0,
        (forall|i: int| 0 <= i < s@.len() ==> #[trigger] s@[i] < '\u{80}') ==> r@ == s@.map_values(
            |c: char| ascii_lower(c),
        ),
{
    let text: String = s.iter().collect();
    text.to_lowercase().chars().collect()
}


/// An owned copy of a string slice.
pub fn string_of(t: &str) -> (s: String)
    ensures
        s@ == t@,
{
    let mut s = String::new();
    push_str(&mut s, t);
    assert(s@ =~= t@);
    s
}

/// Keeps the `Some` results of `f` over `s`, in order (`Iterator::filter_map`).
pub open spec fn filter_map<A, B>(s: Seq<A>, f: spec_fn(A) -> Option<B>) -> Seq<B>
    decreases s.len(),
{
    if s.len() == 0 {
        seq![]
    } else {
        filter_map(s.drop_last(), f) + match f(s.last()) {
            Some(b) => seq![b],
            None => seq![],
        }
    }
}

/// `filter_map` of joined sequences is the join of their `filter_map`s.
pub proof fn lemma_filter_map_concat<A, B>(s1: Seq<A>, s2: Seq<A>, f: spec_fn(A) -> Option<B>)
    ensures
        filter_map(s1 + s2, f) == filter_map(s1, f) + filter_map(s2, f),
    decreases s2.len(),
{
    if s2.len() == 0 {
        assert(s1 + s2 =~= s1);
        assert(filter_map(s1, f) + filter_map(s2, f) =~= filter_map(s1, f));
    } else {
        lemma_filter_map_concat(s1, s2.drop_last(), f);
        assert((s1 + s2).drop_last() =~= s1 + s2.drop_last());
        assert((s1 + s2).last() == s2.last());
        let tail: Seq<B> = match f(s2.last()) {
            Some(b) => seq![b],
            None => seq![],
        };
        assert(filter_map(s1 + s2, f) == filter_map(s1 + s2.drop_last(), f) + tail);
        assert(filter_map(s2, f) == filter_map(s2.drop_last(), f) + tail);
        assert(filter_map(s1 + s2, f) =~= filter_map(s1, f) + filter_map(s2, f));
    }
}

/// The items after the first (`Iterator::skip(1)`).
pub open spec fn skip_first<A>(s: Seq<A>) -> Seq<A> {
    if s.len() == 0 {
        s
    } else {
        s.drop_first()
    }
}


/// Whether the characters spell the given string slice.
pub fn chars_eq_str(a: &Vec<char>, t: &str) -> (r: bool)
    ensures
        r == (a@ == t@),
{
    let b = chars_of(t);
    if a.len() != b.len() {
        return false;
    }
    let mut i: usize = 0;
    while i < a.len()
        invariant
            a.len() == b.len(),
            i <= a.len(),
            b@ == t@,
            forall|j: int| 0 <= j < i ==> a@[j] == b@[j],
        decreases a.len() - i,
    {
        if a[i] != b[i] {
            return false;
        }
        i = i + 1;
    }
    assert(a@ =~= b@);
    true
}


/// Lexicographic order of texts by code point (the order of `str` and of
/// `String` keys in a `BTreeMap`).
pub open spec fn seq_lt(a: Seq<char>, b: Seq<char>) -> bool
    decreases a.len(),
{
    if a.len() == 0 {
        b.len() > 0
    } else if b.len() == 0 {
        false
    } else if a[0] != b[0] {
        a[0] < b[0]
    } else {
        seq_lt(a.drop_first(), b.drop_first())
    }
}

pub proof fn lemma_seq_lt_irreflexive(a: Seq<char>)
    ensures
        !seq_lt(a, a),
    decreases a.len(),
{
    if a.len() > 0 {
        lemma_seq_lt_irreflexive(a.drop_first());
    }
}

pub proof fn lemma_seq_lt_transitive(a: Seq<char>, b: Seq<char>, c: Seq<char>)
    requires
        seq_lt(a, b),
        seq_lt(b, c),
    ensures
        seq_lt(a, c),
    decreases a.len(),
{
    if a.len() > 0 && b.len() > 0 && c.len() > 0 && a[0] == b[0] && b[0] == c[0] {
        lemma_seq_lt_transitive(a.drop_first(), b.drop_first(), c.drop_first());
    }
}

pub proof fn lemma_seq_lt_total(a: Seq<char>, b: Seq<char>)
    ensures
        a == b || seq_lt(a, b) || seq_lt(b, a),
    decreases a.len(),
{
    if a.len() > 0 && b.len() > 0 {
        if a[0] == b[0] {
            lemma_seq_lt_total(a.drop_first(), b.drop_first());
            if a.drop_first() == b.drop_first() {
                assert(a =~= seq![a[0]] + a.drop_first());
                assert(b =~= seq![b[0]] + b.drop_first());
            }
        } else {
        }
    } else if a.len() == 0 && b.len() == 0 {
        assert(a =~= b);
    }
}

/// Whether `a` orders before `b` (`a < b` on `str`).
pub fn chars_lt(a: &Vec<char>, b: &Vec<char>) -> (r: bool)
    ensures
        r == seq_lt(a@, b@),
{
    let mut i: usize = 0;
    assert(a@.skip(0) =~= a@);
    assert(b@.skip(0) =~= b@);
    while i < a.len() && i < b.len() && a[i] == b[i]
        invariant
            i <= a.len(),
            i <= b.len(),
            seq_lt(a@, b@) == seq_lt(a@.skip(i as int), b@.skip(i as int)),
        decreases a.len() - i,
    {
        assert(a@.skip(i as int).drop_first() =~= a@.skip(i + 1));
        assert(b@.skip(i as int).drop_first() =~= b@.skip(i + 1));
        i = i + 1;
    }
    if i == a.len() {
        i < b.len()
    } else if i == b.len() {
        false
    } else {
        assert(a@.skip(i as int)[0] == a@[i as int]);
        assert(b@.skip(i as int)[0] == b@[i as int]);
        a[i] < b[i]
    }
}


/// Appends the decimal notation of `n`.
pub fn push_dec(s: &mut String, n: u64)
    ensures
        final(s)@ == old(s)@ + dec(n as nat),
{
    let d = fmt_u64(n);
    push_chars(s, &d);
}

/// Appends the decimal notation of `n`, with a `'-'` when it is negative.
pub fn push_dec_signed(s: &mut String, n: i64)
    ensures
        final(s)@ == old(s)@ + dec_int(n as int),
{
    let d = fmt_i64(n);
    push_chars(s, &d);
}


/// The text of an optional string slice.
pub open spec fn opt_str_view(o: Option<&str>) -> Option<Seq<char>> {
    match o {
        Some(s) => Some(s@),
        None => None,
    }
}


/// The texts joined with `sep` between each two (`slice::join(sep)`).
pub open spec fn join_with(ws: Seq<Seq<char>>, sep: Seq<char>) -> Seq<char>
    decreases ws.len(),
{
    if ws.len() == 0 {
        Seq::empty()
    } else if ws.len() == 1 {
        ws[0]
    } else {
        join_with(ws.drop_last(), sep) + sep + ws.last()
    }
}

/// Appends the texts joined with `sep`.
pub fn push_joined(out: &mut String, ws: &Vec<Vec<char>>, sep: &str)
    ensures
        final(out)@ == old(out)@ + join_with(views(ws@), sep@),
{
    let mut i: usize = 0;
    assert(views(ws@).take(0) =~= Seq::<Seq<char>>::empty());
    while i < ws.len()
        invariant
            i <= ws.len(),
            out@ == old(out)@ + join_with(views(ws@).take(i as int), sep@),
        decreases ws.len() - i,
    {
        let ghost part = views(ws@).take(i + 1);
        assert(part.drop_last() =~= views(ws@).take(i as int));
        if i > 0 {
            push_str(out, sep);
        } else {
            assert(part =~= seq![ws@[0]@]);
        }
        push_chars(out, &ws[i]);
        i = i + 1;
        assert(out@ =~= old(out)@ + join_with(views(ws@).take(i as int), sep@));
    }
    assert(views(ws@).take(ws.len() as int) =~= views(ws@));
}

} // verus!
