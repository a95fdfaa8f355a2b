use vstd::prelude::*;

verus! {

use crate::error::ConfigError;
use crate::text::{str_eq, trim_front, trimmed, trimmed_range};
use crate::value::{Entry, SourceSpan, Value};
use crate::document::{keys_of, names_of, names_unique, sections_spanned, Document, Section};

/// Decimal digits.
pub open spec fn is_digit(c: char) -> bool {
    48 <= c as u32 <= 57
}

pub open spec fn digit_val(c: char) -> int {
    c as u32 - 48
}

/// Whether the character is a decimal digit.
pub fn is_digit_exec(c: char) -> (r: bool)
    ensures
        r == is_digit(c),
{
    (c as u32) >= 48 && (c as u32) <= 57
}

/// A non-empty run of decimal digits.
pub open spec fn is_digits(s: Seq<char>) -> bool {
    s.len() > 0 && forall|i: int| 0 <= i < s.len() ==> is_digit(s[i])
}

/// The number a run of digits denotes.
pub open spec fn digits_value(s: Seq<char>) -> int
    decreases s.len(),
{
    if s.len() == 0 {
        0
    } else {
        10 * digits_value(s.drop_last()) + digit_val(s.last())
    }
}

/// An integer literal: an optional minus sign, then digits.
pub open spec fn is_int_literal(s: Seq<char>) -> bool {
    if s.len() > 0 && s[0] == '-' {
        is_digits(s.drop_first())
    } else {
        is_digits(s)
    }
}

pub open spec fn int_literal_value(s: Seq<char>) -> int {
    if s.len() > 0 && s[0] == '-' {
        -digits_value(s.drop_first())
    } else {
        digits_value(s)
    }
}

pub open spec fn in_i64_range(v: int) -> bool {
    i64::MIN <= v <= i64::MAX
}

/// Digits, a dot, digits.
pub open spec fn is_float_body(s: Seq<char>) -> bool {
    exists|i: int|
        0 <= i < s.len() && s[i] == '.' && is_digits(s.subrange(0, i)) && is_digits(
            s.subrange(i + 1, s.len() as int),
        )
}

/// A float literal: an optional minus sign, then digits, a dot, digits.
pub open spec fn is_float_literal(s: Seq<char>) -> bool {
    if s.len() > 0 && s[0] == '-' {
        is_float_body(s.drop_first())
    } else {
        is_float_body(s)
    }
}

/// A basic string: opening and closing double quote around its content.
pub open spec fn is_quoted(s: Seq<char>) -> bool {
    s.len() >= 2 && s[0] == '"' && s.last() == '"'
}

/// The value texts this engine accepts.
pub open spec fn valid_value_text(t: Seq<char>) -> bool {
    ||| is_quoted(t)
    ||| t == "true"@
    ||| t == "false"@
    ||| (is_int_literal(t) && in_i64_range(int_literal_value(t)))
    ||| is_float_literal(t)
}

/// The value of a digit run is never negative.
proof fn lemma_digits_value_nonneg(s: Seq<char>)
    requires
        forall|i: int| 0 <= i < s.len() ==> is_digit(s[i]),
    ensures
        digits_value(s) >= 0,
    decreases s.len(),
{
    if s.len() > 0 {
        lemma_digits_value_nonneg(s.drop_last());
    }
}

/// Extending a digit run never shrinks its value.
proof fn lemma_digits_value_mono(s: Seq<char>, i: int)
    requires
        forall|k: int| 0 <= k < s.len() ==> is_digit(s[k]),
        0 <= i <= s.len(),
    ensures
        digits_value(s.subrange(0, i)) <= digits_value(s),
    decreases s.len(),
{
    lemma_digits_value_nonneg(s.subrange(0, i));
    if i < s.len() {
        assert(s.drop_last().subrange(0, i) =~= s.subrange(0, i));
        lemma_digits_value_mono(s.drop_last(), i);
        lemma_digits_value_nonneg(s.drop_last());
    } else {
        assert(s.subrange(0, i) =~= s);
    }
}

/// Parses an integer literal. The result is the literal's value exactly when
/// the text is an integer literal whose value fits a 64-bit signed integer;
/// any other text yields nothing.
pub fn parse_integer(t: &str) -> (r: Option<i64>)
    ensures
        is_int_literal(t@) && in_i64_range(int_literal_value(t@)) ==> (r matches Some(v)
            && v as int == int_literal_value(t@)),
        !(is_int_literal(t@) && in_i64_range(int_literal_value(t@))) ==> r is None,
{
    let n = t.unicode_len();
    if n == 0 {
        return None;
    }
    let neg = t.get_char(0) == '-';
    let start: usize = if neg {
        1
    } else {
        0
    };
    if start == n {
        return None;
    }
    let limit: u64 = if neg {
        9223372036854775808
    } else {
        9223372036854775807
    };
    let ghost body = t@.subrange(start as int, n as int);
    proof {
        if neg {
            assert(body =~= t@.drop_first());
        } else {
            assert(body =~= t@);
        }
        assert(body.subrange(0, 0) =~= Seq::<char>::empty());
    }
    let mut acc: u64 = 0;
    let mut i: usize = start;
    while i < n
        invariant
            start <= i <= n,
            n as int == t@.len(),
            start == 1 <==> (t@.len() > 0 && t@[0] == '-'),
            start == 0 || start == 1,
            body == t@.subrange(start as int, n as int),
            start == 1 ==> body == t@.drop_first(),
            start == 0 ==> body == t@,
            limit as int == if start == 1 { 9223372036854775808int } else { 9223372036854775807int },
            forall|k: int| start <= k < i ==> is_digit(t@[k]),
            acc as int == digits_value(t@.subrange(start as int, i as int)),
            acc <= limit,
        decreases n - i,
    {
        let c = t.get_char(i);
        if !is_digit_exec(c) {
            proof {
                assert(!is_digit(body[i - start]));
            }
            return None;
        }
        let d: u64 = (c as u32 as u64) - 48;
        proof {
            assert(t@.subrange(start as int, i + 1).drop_last() =~= t@.subrange(
                start as int,
                i as int,
            ));
            assert(t@.subrange(start as int, i + 1).last() == t@[i as int]);
        }
        if acc > limit / 10 {
            proof {
                assert(10 * (limit as int / 10) + 9 >= limit as int);
                assert(10 * acc as int + d as int > limit as int);
                lemma_int_overflow_give_up(t@, body, start as int, i as int, limit as int, d as int);
            }
            return None;
        }
        let acc10: u64 = acc * 10;
        if acc10 > limit - d {
            proof {
                assert(10 * acc as int + d as int > limit as int);
                lemma_int_overflow_give_up(t@, body, start as int, i as int, limit as int, d as int);
            }
            return None;
        }
        acc = acc10 + d;
        i += 1;
    }
    proof {
        assert(t@.subrange(start as int, i as int) =~= body);
        assert(is_digits(body));
        assert(is_int_literal(t@));
        lemma_digits_value_nonneg(body);
    }
    if neg {
        if acc == 9223372036854775808 {
            Some(i64::MIN)
        } else {
            Some(-(acc as i64))
        }
    } else {
        Some(acc as i64)
    }
}

/// Once some digit prefix already exceeds the admissible magnitude, the
/// whole text cannot be an integer literal in 64-bit range — used to justify
/// giving up early on an overflowing literal.
proof fn lemma_int_overflow_give_up(t: Seq<char>, body: Seq<char>, start: int, i: int, limitv: int, d: int)
    requires
        0 <= start <= i < t.len(),
        start == 0 || start == 1,
        start == 1 <==> (t.len() > 0 && t[0] == '-'),
        body == t.subrange(start, t.len() as int),
        start == 1 ==> body == t.drop_first(),
        start == 0 ==> body == t,
        limitv == if start == 1 {
            9223372036854775808int
        } else {
            9223372036854775807int
        },
        d == digit_val(t[i]),
        digits_value(t.subrange(start, i)) * 10 + d > limitv,
    ensures
        !(is_int_literal(t) && in_i64_range(int_literal_value(t))),
{
    if is_int_literal(t) {
        assert(is_digits(body));
        let pre = t.subrange(start, i + 1);
        assert(pre.drop_last() =~= t.subrange(start, i));
        assert(pre.last() == t[i]);
        assert(digits_value(pre) > limitv);
        assert(pre =~= body.subrange(0, i + 1 - start));
        lemma_digits_value_mono(body, i + 1 - start);
        assert(digits_value(body) > limitv);
        if start == 1 {
            assert(int_literal_value(t) == -digits_value(body));
        } else {
            assert(int_literal_value(t) == digits_value(body));
        }
        assert(!in_i64_range(int_literal_value(t)));
    }
}

/// Whether the text is a float literal.
pub fn is_float_exec(t: &str) -> (r: bool)
    ensures
        r == is_float_literal(t@),
{
    let n = t.unicode_len();
    let start: usize = if n > 0 && t.get_char(0) == '-' {
        1
    } else {
        0
    };
    let ghost body = t@.subrange(start as int, n as int);
    proof {
        if start == 1 {
            assert(body =~= t@.drop_first());
        } else {
            assert(body =~= t@);
        }
    }
    let mut i: usize = start;
    while i < n && is_digit_exec(t.get_char(i))
        invariant
            start <= i <= n,
            n as int == t@.len(),
            forall|k: int| start <= k < i ==> is_digit(t@[k]),
        decreases n - i,
    {
        i += 1;
    }
    if i == start || i >= n || t.get_char(i) != '.' {
        proof {
            assert forall|x: int| !(0 <= x < body.len() && body[x] == '.' && is_digits(
                body.subrange(0, x),
            ) && is_digits(body.subrange(x + 1, body.len() as int))) by {
                if 0 <= x < body.len() && body[x] == '.' && is_digits(body.subrange(0, x))
                    && is_digits(body.subrange(x + 1, body.len() as int)) {
                    assert(body.subrange(0, x).len() == x);
                    assert(x > 0);
                    assert forall|k: int| 0 <= k < x implies is_digit(body[k]) by {
                        assert(is_digit(body.subrange(0, x)[k]));
                    }
                    if x < i - start {
                        assert(is_digit(t@[start + x]));
                        assert(body[x] == t@[start + x]);
                        assert(false);
                    }
                    if x > i - start {
                        assert(is_digit(body[i - start]));
                        assert(body[i - start] == t@[i as int]);
                        assert(i < start + body.len());
                        assert(false);
                    }
                    assert(x == i - start);
                    assert(i < start + body.len());
                    assert(body[x] == t@[i as int]);
                    assert(t@[i as int] == '.');
                    assert(false);
                }
            }
        }
        return false;
    }
    let dot = i;
    let mut j: usize = dot + 1;
    while j < n && is_digit_exec(t.get_char(j))
        invariant
            dot + 1 <= j <= n,
            n as int == t@.len(),
            forall|k: int| dot + 1 <= k < j ==> is_digit(t@[k]),
        decreases n - j,
    {
        j += 1;
    }
    if j < n || dot + 1 == n {
        proof {
            assert forall|x: int| !(0 <= x < body.len() && body[x] == '.' && is_digits(
                body.subrange(0, x),
            ) && is_digits(body.subrange(x + 1, body.len() as int))) by {
                if 0 <= x < body.len() && body[x] == '.' && is_digits(body.subrange(0, x))
                    && is_digits(body.subrange(x + 1, body.len() as int)) {
                    assert(body.subrange(0, x).len() == x);
                    assert(x > 0);
                    assert forall|k: int| 0 <= k < x implies is_digit(body[k]) by {
                        assert(is_digit(body.subrange(0, x)[k]));
                    }
                    if x < dot - start {
                        assert(is_digit(t@[start + x]));
                        assert(body[x] == t@[start + x]);
                        assert(false);
                    }
                    if x > dot - start {
                        assert(is_digit(body[dot - start]));
                        assert(body[dot - start] == t@[dot as int]);
                        assert(false);
                    }
                    assert(x == dot - start);
                    if dot + 1 == n {
                        assert(body.subrange(x + 1, body.len() as int).len() == 0);
                        assert(false);
                    } else {
                        assert(j < n);
                        assert(body.subrange(x + 1, body.len() as int)[j - dot - 1] == body[
                            j - start
                        ]);
                        assert(is_digit(body[j - start]));
                        assert(body[j - start] == t@[j as int]);
                        assert(false);
                    }
                }
            }
        }
        return false;
    }
    proof {
        let x = dot - start;
        assert(body.subrange(0, x) =~= t@.subrange(start as int, dot as int));
        assert(body.subrange(x + 1, body.len() as int) =~= t@.subrange(dot + 1, n as int));
        assert(is_digits(body.subrange(0, x)));
        assert(is_digits(body.subrange(x + 1, body.len() as int)));
        assert(body[x] == '.');
        assert(is_float_body(body));
    }
    true
}

/// Parses one trimmed value text into a typed value carrying the given
/// span. Quoted text is a string with the quotes stripped; `true` and
/// `false` are booleans; an integer literal in 64-bit range is an integer; a
/// float literal keeps its text; anything else is rejected.
pub fn parse_value(t: &str, line: usize, column: usize) -> (r: Option<Value>)
    ensures
        is_quoted(t@) ==> (r matches Some(v) && v matches Value::Str(s, sp) && s@ == t@.subrange(
            1,
            t@.len() - 1,
        ) && sp == Some(SourceSpan { line, column })),
        t@ == "true"@ ==> (r matches Some(v) && v == Value::Boolean(
            true,
            Some(SourceSpan { line, column }),
        )),
        t@ == "false"@ ==> (r matches Some(v) && v == Value::Boolean(
            false,
            Some(SourceSpan { line, column }),
        )),
        !is_quoted(t@) && t@ != "true"@ && t@ != "false"@ && is_int_literal(t@) && in_i64_range(
            int_literal_value(t@),
        ) ==> (r matches Some(v) && v matches Value::Integer(x, sp) && x as int
            == int_literal_value(t@) && sp == Some(SourceSpan { line, column })),
        !is_quoted(t@) && t@ != "true"@ && t@ != "false"@ && !(is_int_literal(t@) && in_i64_range(
            int_literal_value(t@),
        )) && is_float_literal(t@) ==> (r matches Some(v) && v matches Value::Float(s, sp) && s@
            == t@ && sp == Some(SourceSpan { line, column })),
        !valid_value_text(t@) ==> r is None,
        r matches Some(v) ==> v.all_spanned(),
{
    proof {
        reveal_strlit("true");
        reveal_strlit("false");
    }
    let n = t.unicode_len();
    let sp = Some(SourceSpan { line, column });
    if n >= 2 && t.get_char(0) == '"' && t.get_char(n - 1) == '"' {
        let inner = t.substring_char(1, n - 1);
        return Some(Value::Str(String::from_str(inner), sp));
    }
    if str_eq(t, "true") {
        return Some(Value::Boolean(true, sp));
    }
    if str_eq(t, "false") {
        return Some(Value::Boolean(false, sp));
    }
    match parse_integer(t) {
        Some(x) => {
            return Some(Value::Integer(x, sp));
        },
        None => {},
    }
    if is_float_exec(t) {
        return Some(Value::Float(String::from_str(t), sp));
    }
    None
}

/// The position of the first line break, or the length when there is none.
pub open spec fn first_nl(s: Seq<char>) -> nat
    decreases s.len(),
{
    if s.len() == 0 {
        0
    } else if s[0] == '\n' {
        0
    } else {
        1 + first_nl(s.drop_first())
    }
}

proof fn lemma_first_nl_at(s: Seq<char>, j: int)
    requires
        0 <= j <= s.len(),
        forall|k: int| 0 <= k < j ==> s[k] != '\n',
        j < s.len() ==> s[j] == '\n',
    ensures
        first_nl(s) == j,
    decreases j,
{
    if j > 0 {
        assert(s[0] != '\n');
        let t = s.drop_first();
        assert forall|k: int| 0 <= k < j - 1 implies t[k] != '\n' by {
            assert(t[k] == s[k + 1]);
        }
        assert(j - 1 < t.len() ==> t[j - 1] == s[j as int]);
        lemma_first_nl_at(t, j - 1);
    }
}

/// What one line of the configuration text may be: blank, a comment, a
/// bracketed section header around a non-blank name, or `key = value` with
/// a non-blank key and an admissible value text.
pub open spec fn valid_line(l: Seq<char>) -> bool {
    ||| trimmed(l).len() == 0
    ||| (trimmed(l).len() > 0 && trimmed(l)[0] == '#')
    ||| (trimmed(l).len() >= 2 && trimmed(l)[0] == '[' && trimmed(l).last() == ']' && trimmed(
        trimmed(l).subrange(1, trimmed(l).len() - 1),
    ).len() > 0)
    ||| (trimmed(l).len() > 0 && trimmed(l)[0] != '[' && trimmed(l)[0] != '#' && exists|e: int|
        0 <= e < l.len() && l[e] == '=' && (forall|k: int| 0 <= k < e ==> l[k] != '=') && trimmed(
            l.subrange(0, e),
        ).len() > 0 && valid_value_text(trimmed(l.subrange(e + 1, l.len() as int))))
}

/// Every line of the text, split on line breaks, is a valid line.
pub open spec fn all_lines_valid(s: Seq<char>) -> bool
    decreases s.len(),
{
    if s.len() == 0 {
        true
    } else {
        let j = first_nl(s) as int;
        &&& valid_line(s.subrange(0, j))
        &&& (j < s.len() ==> all_lines_valid(s.subrange(j + 1, s.len() as int)))
    }
}

/// A line whose visible text is empty or a comment.
pub open spec fn is_blank_spec(l: Seq<char>) -> bool {
    trimmed(l).len() == 0 || trimmed(l)[0] == '#'
}

/// A line whose visible text opens with a bracket: it must be a section
/// header or the line is invalid.
pub open spec fn is_header_shape(l: Seq<char>) -> bool {
    trimmed(l).len() > 0 && trimmed(l)[0] == '['
}

/// The trimmed name between a header line's brackets.
pub open spec fn header_name(l: Seq<char>) -> Seq<char> {
    trimmed(trimmed(l).subrange(1, trimmed(l).len() - 1))
}

/// The section names one line contributes: a header its name, an entry
/// before any open section the global section, anything else nothing.
pub open spec fn line_names_delta(l: Seq<char>, open: bool) -> Seq<Seq<char>> {
    if is_blank_spec(l) {
        Seq::empty()
    } else if is_header_shape(l) {
        seq![header_name(l)]
    } else if !open {
        seq!["global"@]
    } else {
        Seq::empty()
    }
}

/// The names of the sections a text opens, in document order; `open` says
/// whether a section is already open when the text starts.
pub open spec fn section_names(s: Seq<char>, open: bool) -> Seq<Seq<char>>
    decreases s.len(),
{
    if s.len() == 0 {
        Seq::empty()
    } else {
        let j = first_nl(s) as int;
        let l = s.subrange(0, j);
        line_names_delta(l, open) + (if j < s.len() {
            section_names(s.subrange(j + 1, s.len() as int), open || !is_blank_spec(l))
        } else {
            Seq::empty()
        })
    }
}

/// Pairwise distinct names.
pub open spec fn names_distinct(ns: Seq<Seq<char>>) -> bool {
    forall|i: int, j: int| 0 <= i < j < ns.len() ==> ns[i] != ns[j]
}

/// `e` is the position of the first equals sign.
pub open spec fn is_first_eq(l: Seq<char>, e: int) -> bool {
    0 <= e < l.len() && l[e] == '=' && (forall|k: int| 0 <= k < e ==> l[k] != '=')
}

/// The key of an entry line: the trimmed text before its first equals sign.
pub open spec fn entry_key(l: Seq<char>) -> Seq<char> {
    trimmed(l.subrange(0, choose|e: int| is_first_eq(l, e)))
}

/// The value text of an entry line: the trimmed text after its first
/// equals sign.
pub open spec fn entry_value_text(l: Seq<char>) -> Seq<char> {
    trimmed(l.subrange((choose|e: int| is_first_eq(l, e)) + 1, l.len() as int))
}

/// How a typed value relates to the value text it was parsed from: quoted
/// text is a string holding the content between the quotes, `true` and
/// `false` are the booleans, an integer literal in range is its value, and
/// a float literal keeps its text.
pub open spec fn value_text_matches(v: Value, t: Seq<char>) -> bool {
    if is_quoted(t) {
        v matches Value::Str(s, _) && s@ == t.subrange(1, t.len() - 1)
    } else if t == "true"@ {
        v matches Value::Boolean(b, _) && b == true
    } else if t == "false"@ {
        v matches Value::Boolean(b, _) && b == false
    } else if is_int_literal(t) && in_i64_range(int_literal_value(t)) {
        v matches Value::Integer(x, _) && x as int == int_literal_value(t)
    } else {
        v matches Value::Float(s, _) && s@ == t
    }
}

/// The 1-based column at which an entry line's value text starts: just
/// past the equals sign and the blank space that follows it.
pub open spec fn value_column(l: Seq<char>) -> int {
    let e = choose|e: int| is_first_eq(l, e);
    let tail = l.subrange(e + 1, l.len() as int);
    e + 2 + (tail.len() - trim_front(tail).len())
}

/// How a value's span relates to a (line, column) position.
pub open spec fn value_span_matches(v: Value, p: (int, int)) -> bool {
    v.spec_span() matches Some(sp) && sp.line as int == p.0 && sp.column as int == p.1
}

/// The positions of the value texts of the entry lines that precede the
/// first header; `line0` is the 1-based number of the first line.
pub open spec fn pending_value_spans(s: Seq<char>, line0: int) -> Seq<(int, int)>
    decreases s.len(),
{
    if s.len() == 0 {
        Seq::empty()
    } else {
        let j = first_nl(s) as int;
        let l = s.subrange(0, j);
        if is_header_shape(l) {
            Seq::empty()
        } else {
            let tailp: Seq<(int, int)> = if j < s.len() {
                pending_value_spans(s.subrange(j + 1, s.len() as int), line0 + 1)
            } else {
                Seq::empty()
            };
            if is_blank_spec(l) {
                tailp
            } else {
                seq![(line0, value_column(l))] + tailp
            }
        }
    }
}

/// For each section the text opens, in document order, the positions of its
/// entries' value texts; aligned index for index with `section_keys`.
pub open spec fn section_value_spans(s: Seq<char>, open: bool, line0: int) -> Seq<
    Seq<(int, int)>,
>
    decreases s.len(),
{
    if s.len() == 0 {
        Seq::empty()
    } else {
        let j = first_nl(s) as int;
        let l = s.subrange(0, j);
        let tailp: Seq<(int, int)> = if j < s.len() {
            pending_value_spans(s.subrange(j + 1, s.len() as int), line0 + 1)
        } else {
            Seq::empty()
        };
        let tails: Seq<Seq<(int, int)>> = if j < s.len() {
            section_value_spans(
                s.subrange(j + 1, s.len() as int),
                open || !is_blank_spec(l),
                line0 + 1,
            )
        } else {
            Seq::empty()
        };
        if is_blank_spec(l) {
            tails
        } else if is_header_shape(l) {
            seq![tailp] + tails
        } else if !open {
            seq![seq![(line0, value_column(l))] + tailp] + tails
        } else {
            tails
        }
    }
}

/// The keys of the entry lines that precede the first header: they belong
/// to whatever section is open when this text starts.
pub open spec fn pending_keys(s: Seq<char>) -> Seq<Seq<char>>
    decreases s.len(),
{
    if s.len() == 0 {
        Seq::empty()
    } else {
        let j = first_nl(s) as int;
        let l = s.subrange(0, j);
        if is_header_shape(l) {
            Seq::empty()
        } else {
            let tailp: Seq<Seq<char>> = if j < s.len() {
                pending_keys(s.subrange(j + 1, s.len() as int))
            } else {
                Seq::empty()
            };
            if is_blank_spec(l) {
                tailp
            } else {
                seq![entry_key(l)] + tailp
            }
        }
    }
}

/// The value texts of the entry lines that precede the first header.
pub open spec fn pending_value_texts(s: Seq<char>) -> Seq<Seq<char>>
    decreases s.len(),
{
    if s.len() == 0 {
        Seq::empty()
    } else {
        let j = first_nl(s) as int;
        let l = s.subrange(0, j);
        if is_header_shape(l) {
            Seq::empty()
        } else {
            let tailp: Seq<Seq<char>> = if j < s.len() {
                pending_value_texts(s.subrange(j + 1, s.len() as int))
            } else {
                Seq::empty()
            };
            if is_blank_spec(l) {
                tailp
            } else {
                seq![entry_value_text(l)] + tailp
            }
        }
    }
}

/// For each section the text opens, in document order, the value texts of
/// its entries, in entry order; aligned index for index with
/// `section_keys`.
pub open spec fn section_value_texts(s: Seq<char>, open: bool) -> Seq<Seq<Seq<char>>>
    decreases s.len(),
{
    if s.len() == 0 {
        Seq::empty()
    } else {
        let j = first_nl(s) as int;
        let l = s.subrange(0, j);
        let tailp: Seq<Seq<char>> = if j < s.len() {
            pending_value_texts(s.subrange(j + 1, s.len() as int))
        } else {
            Seq::empty()
        };
        let tails: Seq<Seq<Seq<char>>> = if j < s.len() {
            section_value_texts(s.subrange(j + 1, s.len() as int), open || !is_blank_spec(l))
        } else {
            Seq::empty()
        };
        if is_blank_spec(l) {
            tails
        } else if is_header_shape(l) {
            seq![tailp] + tails
        } else if !open {
            seq![seq![entry_value_text(l)] + tailp] + tails
        } else {
            tails
        }
    }
}

/// For each section the text opens, in document order, the keys of its
/// entries, in entry order; `open` says whether a section is already open
/// when the text starts (entries then attach to it, not to these).
pub open spec fn section_keys(s: Seq<char>, open: bool) -> Seq<Seq<Seq<char>>>
    decreases s.len(),
{
    if s.len() == 0 {
        Seq::empty()
    } else {
        let j = first_nl(s) as int;
        let l = s.subrange(0, j);
        let tailp: Seq<Seq<char>> = if j < s.len() {
            pending_keys(s.subrange(j + 1, s.len() as int))
        } else {
            Seq::empty()
        };
        let tails: Seq<Seq<Seq<char>>> = if j < s.len() {
            section_keys(s.subrange(j + 1, s.len() as int), open || !is_blank_spec(l))
        } else {
            Seq::empty()
        };
        if is_blank_spec(l) {
            tails
        } else if is_header_shape(l) {
            seq![tailp] + tails
        } else if !open {
            seq![seq![entry_key(l)] + tailp] + tails
        } else {
            tails
        }
    }
}

/// Builds a syntax error: its message, the originating path, a short
/// fragment of the offending text, and the line and column where it starts.
fn parse_err(msg: &str, path: &str, fragment: &str, line: usize, column: usize) -> (e: ConfigError)
    ensures
        e matches ConfigError::ParseFailure { message, path: p, fragment: f, span } && message@
            == msg@ && p@ == path@ && f@ == fragment@ && span == Some(SourceSpan { line, column }),
{
    ConfigError::ParseFailure {
        message: String::from_str(msg),
        path: String::from_str(path),
        fragment: String::from_str(fragment),
        span: Some(SourceSpan { line, column }),
    }
}

/// Whether some section already bears this name.
fn find_section(sections: &Vec<Section>, name: &str) -> (r: bool)
    ensures
        r == exists|i: int| 0 <= i < sections@.len() && sections@[i].name@ == name@,
{
    let n = sections.len();
    let mut i: usize = 0;
    while i < n
        invariant
            i <= n,
            n == sections@.len(),
            forall|k: int| 0 <= k < i ==> sections@[k].name@ != name@,
        decreases n - i,
    {
        if str_eq(sections[i].name.as_str(), name) {
            return true;
        }
        i += 1;
    }
    false
}

/// Handles one line of the configuration text: blank or comment lines are
/// skipped, a bracketed header opens a new section, and a `key = value`
/// line appends a typed entry to the current section; entries before any
/// header open the global section. The line succeeds exactly when it is
/// valid and, for a header, its name is new; anything else is a syntax
/// error carrying the path, the offending fragment and its position.
fn process_line(sections: &mut Vec<Section>, line: &str, line_no: usize, path: &str) -> (r:
    Result<(), ConfigError>)
    requires
        line@.len() + 2 < usize::MAX,
        names_unique(old(sections)@),
        sections_spanned(old(sections)@),
    ensures
        names_unique(final(sections)@),
        sections_spanned(final(sections)@),
        (r is Ok) <==> (valid_line(line@) && !(is_header_shape(line@) && exists|i: int|
            0 <= i < old(sections)@.len() && old(sections)@[i].name@ == header_name(line@))),
        r is Ok ==> names_of(final(sections)@) == names_of(old(sections)@) + line_names_delta(
            line@,
            old(sections)@.len() > 0,
        ),
        r is Ok ==> (final(sections)@.len() > 0 <==> (old(sections)@.len() > 0 || !is_blank_spec(
            line@,
        ))),
        r is Ok && is_blank_spec(line@) ==> final(sections)@ == old(sections)@,
        r is Ok && is_header_shape(line@) ==> keys_of(final(sections)@) == keys_of(
            old(sections)@,
        ) + seq![Seq::<Seq<char>>::empty()],
        (r is Ok && !is_blank_spec(line@) && !is_header_shape(line@) && old(sections)@.len() > 0)
            ==> keys_of(final(sections)@) == keys_of(old(sections)@).update(
            old(sections)@.len() - 1,
            keys_of(old(sections)@).last().push(entry_key(line@)),
        ),
        (r is Ok && !is_blank_spec(line@) && !is_header_shape(line@) && old(sections)@.len() == 0)
            ==> keys_of(final(sections)@) == seq![seq![entry_key(line@)]],
        (r is Ok && is_header_shape(line@)) ==> (final(sections)@.drop_last() == old(sections)@
            && final(sections)@.last().entries@.len() == 0),
        (r is Ok && !is_blank_spec(line@) && !is_header_shape(line@)) ==> (final(sections)@
            .last().entries@.len() > 0 && final(sections)@.last().entries@.last().key@ == entry_key(
            line@,
        ) && value_text_matches(
            final(sections)@.last().entries@.last().value,
            entry_value_text(line@),
        ) && final(sections)@.last().entries@.drop_last() == (if old(sections)@.len() > 0 {
            old(sections)@.last().entries@
        } else {
            Seq::<Entry>::empty()
        }) && value_span_matches(
            final(sections)@.last().entries@.last().value,
            (line_no as int, value_column(line@)),
        )),
        (r is Ok && !is_blank_spec(line@) && !is_header_shape(line@) && old(sections)@.len() > 0)
            ==> (final(sections)@.len() == old(sections)@.len() && (forall|i: int|
            0 <= i < old(sections)@.len() - 1 ==> final(sections)@[i] == old(sections)@[i])),
        r matches Err(e) ==> (e matches ConfigError::ParseFailure {
            message,
            path: p,
            fragment,
            span,
        } && p@ == path@ && fragment@ == trimmed(line@) && span is Some),
{
    let ghost l = line@;
    let (a, b) = trimmed_range(line);
    if a == b {
        proof {
            assert(trimmed(l).len() == 0);
            assert(names_of(sections@) =~= names_of(sections@) + line_names_delta(
                l,
                old(sections)@.len() > 0,
            ));
        }
        return Ok(());
    }
    let first = line.get_char(a);
    proof {
        assert(trimmed(l)[0] == l[a as int]);
    }
    if first == '#' {
        proof {
            assert(names_of(sections@) =~= names_of(sections@) + line_names_delta(
                l,
                old(sections)@.len() > 0,
            ));
        }
        return Ok(());
    }
    let frag = line.substring_char(a, b);
    if first == '[' {
        proof {
            assert(trimmed(l).last() == l[b - 1]);
        }
        if b - a < 2 || line.get_char(b - 1) != ']' {
            proof {
                assert(!valid_line(l));
            }
            return Err(parse_err("invalid section header", path, frag, line_no, a + 1));
        }
        let inner = line.substring_char(a + 1, b - 1);
        proof {
            let t = trimmed(l);
            assert(t.subrange(1, t.len() - 1) =~= l.subrange(a + 1, b - 1));
            assert(header_name(l) == trimmed(inner@));
        }
        let (c, d) = trimmed_range(inner);
        if c == d {
            proof {
                assert(trimmed(inner@).len() == 0);
                assert(!valid_line(l));
            }
            return Err(parse_err("empty section name", path, frag, line_no, a + 1));
        }
        let name_str = inner.substring_char(c, d);
        proof {
            assert(name_str@ == header_name(l));
        }
        if find_section(sections, name_str) {
            return Err(parse_err("duplicate section name", path, frag, line_no, a + 1));
        }
        let ghost before = sections@;
        sections.push(Section { name: String::from_str(name_str), entries: Vec::new() });
        proof {
            assert(trimmed(inner@).len() > 0);
            assert(valid_line(l));
            assert forall|i: int, j: int|
                0 <= i < j < sections@.len() implies sections@[i].name@ != sections@[j].name@ by {
                if j < sections@.len() - 1 {
                    assert(before[i].name@ != before[j].name@);
                }
            }
            assert forall|i: int, k: int|
                0 <= i < sections@.len() && 0 <= k < sections@[i].entries@.len() implies (
            #[trigger] sections@[i].entries@[k]).value.all_spanned() by {
                assert(i < sections@.len() - 1);
                assert(sections@[i].entries@[k] == before[i].entries@[k]);
            }
            assert(names_of(sections@) =~= names_of(before) + line_names_delta(
                l,
                before.len() > 0,
            ));
            assert(keys_of(sections@) =~~= keys_of(before) + seq![Seq::<Seq<char>>::empty()]);
            assert(sections@.drop_last() =~= before);
        }
        return Ok(());
    }
    let nl = line.unicode_len();
    let mut e: usize = 0;
    while e < nl && line.get_char(e) != '='
        invariant
            e <= nl,
            nl as int == line@.len(),
            forall|k: int| 0 <= k < e ==> line@[k] != '=',
        decreases nl - e,
    {
        e += 1;
    }
    if e == nl {
        proof {
            assert(!valid_line(l));
        }
        return Err(parse_err("expected a `key = value` line", path, frag, line_no, a + 1));
    }
    let keypart = line.substring_char(0, e);
    proof {
        assert(l[e as int] == '=');
        assert(keypart@ == l.subrange(0, e as int));
    }
    let (ka, kb) = trimmed_range(keypart);
    if ka == kb {
        proof {
            assert(trimmed(l.subrange(0, e as int)).len() == 0);
            assert forall|e2: int|
                !(0 <= e2 < l.len() && l[e2] == '=' && (forall|k: int|
                    0 <= k < e2 ==> l[k] != '=') && trimmed(l.subrange(0, e2)).len() > 0
                    && valid_value_text(trimmed(l.subrange(e2 + 1, l.len() as int)))) by {
                if 0 <= e2 < l.len() && l[e2] == '=' && (forall|k: int|
                    0 <= k < e2 ==> l[k] != '=') {
                    assert(e2 == e as int);
                }
            }
            assert(!valid_line(l));
        }
        return Err(parse_err("missing key", path, frag, line_no, a + 1));
    }
    let key_str = keypart.substring_char(ka, kb);
    let valpart = line.substring_char(e + 1, nl);
    proof {
        assert(valpart@ == l.subrange(e + 1, l.len() as int));
    }
    let (va, vb) = trimmed_range(valpart);
    let vtext = valpart.substring_char(va, vb);
    let column = e + 1 + va + 1;
    match parse_value(vtext, line_no, column) {
        None => {
            proof {
                reveal_strlit("true");
                reveal_strlit("false");
                assert(vtext@ == trimmed(l.subrange(e + 1, l.len() as int)));
                assert(!valid_value_text(vtext@));
                assert forall|e2: int|
                    !(0 <= e2 < l.len() && l[e2] == '=' && (forall|k: int|
                        0 <= k < e2 ==> l[k] != '=') && trimmed(l.subrange(0, e2)).len() > 0
                        && valid_value_text(trimmed(l.subrange(e2 + 1, l.len() as int)))) by {
                    if 0 <= e2 < l.len() && l[e2] == '=' && (forall|k: int|
                        0 <= k < e2 ==> l[k] != '=') {
                        assert(e2 == e as int);
                    }
                }
                assert(!valid_line(l));
            }
            Err(parse_err("unrecognized or out-of-range value", path, frag, line_no, column))
        },
        Some(v) => {
            let ghost opened = sections@.len() > 0;
            if sections.len() == 0 {
                sections.push(Section { name: String::from_str("global"), entries: Vec::new() });
            }
            let ghost mid = sections@;
            let sec_opt = sections.pop();
            match sec_opt {
                Some(mut sec) => {
                    sec.entries.push(Entry { key: String::from_str(key_str), value: v });
                    sections.push(sec);
                    proof {
                        assert(sections@.len() == mid.len());
                        assert forall|i: int, j: int|
                            0 <= i < j < sections@.len() implies sections@[i].name@
                            != sections@[j].name@ by {
                            assert(mid[i].name@ != mid[j].name@);
                            if j < sections@.len() - 1 {
                                assert(sections@[i] == mid[i]);
                                assert(sections@[j] == mid[j]);
                            } else {
                                assert(sections@[j].name@ == mid[j].name@);
                            }
                        }
                        assert forall|i: int, k: int|
                            0 <= i < sections@.len() && 0 <= k < sections@[i].entries@.len()
                            implies (#[trigger] sections@[i].entries@[k]).value.all_spanned() by {
                            if i < sections@.len() - 1 {
                                assert(sections@[i].entries@[k] == mid[i].entries@[k]);
                            } else {
                                if k < sections@[i].entries@.len() - 1 {
                                    assert(sections@[i].entries@[k] == mid[i].entries@[k]);
                                } else {
                                    assert(sections@[i].entries@[k].value == v);
                                }
                            }
                        }
                        assert(trimmed(l.subrange(0, e as int)).len() > 0);
                        assert(valid_value_text(trimmed(l.subrange(e + 1, l.len() as int))));
                        assert(valid_line(l));
                        assert forall|i: int|
                            0 <= i < sections@.len() implies sections@[i].name@ == mid[i].name@ by {
                        }
                        assert(names_of(sections@) =~= names_of(mid));
                        assert(names_of(mid) =~= names_of(old(sections)@) + line_names_delta(
                            l,
                            opened,
                        ));
                        assert(is_first_eq(l, e as int));
                        let ce = choose|e2: int| is_first_eq(l, e2);
                        if ce < e as int {
                            assert(l[ce] == '=');
                            assert(false);
                        }
                        if ce > e as int {
                            assert(l[e as int] != '=');
                            assert(false);
                        }
                        assert(entry_key(l) == key_str@);
                        assert(entry_value_text(l) == vtext@);
                        assert(value_text_matches(v, vtext@));
                        assert(va as int == valpart@.len() - trim_front(valpart@).len());
                        assert(value_column(l) == column as int);
                        assert(value_span_matches(v, (line_no as int, value_column(l))));
                        assert(sections@.last().entries@.drop_last() =~= (if opened {
                            old(sections)@.last().entries@
                        } else {
                            Seq::<Entry>::empty()
                        }));
                        if opened {
                            let kb = keys_of(old(sections)@);
                            let target = kb.update(
                                old(sections)@.len() - 1,
                                kb.last().push(entry_key(l)),
                            );
                            assert forall|i2: int|
                                0 <= i2 < sections@.len() implies keys_of(sections@)[i2]
                                == target[i2] by {
                                if i2 < sections@.len() - 1 {
                                    assert(sections@[i2] == old(sections)@[i2]);
                                } else {
                                    assert(sections@[i2].entries@ =~= old(
                                        sections,
                                    )@[i2].entries@.push(
                                        Entry { key: sections@[i2].entries@.last().key, value: sections@[i2].entries@.last().value },
                                    ));
                                    assert(sections@[i2].entries@.map_values(
                                        |en: Entry| en.key@,
                                    ) =~= old(sections)@[i2].entries@.map_values(
                                        |en: Entry| en.key@,
                                    ).push(key_str@));
                                }
                            }
                            assert(keys_of(sections@) =~= target);
                        } else {
                            assert(sections@.len() == 1);
                            assert(sections@[0].entries@.map_values(|en: Entry| en.key@)
                                =~= seq![key_str@]);
                            assert(keys_of(sections@) =~= seq![seq![entry_key(l)]]);
                        }
                    }
                    Ok(())
                },
                None => {
                    proof {
                        assert(false);
                    }
                    Ok(())
                },
            }
        },
    }
}

/// Parses a configuration text into a typed document: a flat global table
/// plus zero or more named sections, every value carrying its line and
/// column. Parsing succeeds exactly when every line of the text is valid
/// and the section names are pairwise distinct; the document then holds
/// those sections, in document order. It is all-or-nothing: the first
/// offending line yields a syntax error naming the path, a fragment of the
/// line and its position, and no partial tree is kept.
#[verifier::rlimit(100)]
pub fn parse_document(text: &str, path: &str) -> (r: Result<Document, ConfigError>)
    requires
        text@.len() + 2 < usize::MAX,
    ensures
        (r is Ok) <==> (all_lines_valid(text@) && names_distinct(section_names(text@, false))),
        r matches Ok(doc) ==> doc.wf() && names_of(doc.sections@) == section_names(text@, false)
            && keys_of(doc.sections@) == section_keys(text@, false),
        r matches Ok(doc) ==> section_value_texts(text@, false).len() == doc.sections@.len() && (
        forall|i: int, k: int|
            0 <= i < doc.sections@.len() && 0 <= k < doc.sections@[i].entries@.len()
                ==> section_value_texts(text@, false)[i].len() == doc.sections@[i].entries@.len()
                && value_text_matches(
                (#[trigger] doc.sections@[i].entries@[k]).value,
                section_value_texts(text@, false)[i][k],
            )),
        r matches Ok(doc) ==> section_value_spans(text@, false, 1).len() == doc.sections@.len()
            && (forall|i: int, k: int|
            0 <= i < doc.sections@.len() && 0 <= k < doc.sections@[i].entries@.len()
                ==> section_value_spans(text@, false, 1)[i].len()
                == doc.sections@[i].entries@.len() && value_span_matches(
                (#[trigger] doc.sections@[i].entries@[k]).value,
                section_value_spans(text@, false, 1)[i][k],
            )),
        r matches Err(e) ==> (e matches ConfigError::ParseFailure {
            message,
            path: p,
            fragment,
            span,
        } && p@ == path@ && span is Some && (exists|p1: int, p2: int|
            0 <= p1 <= p2 <= text@.len() && (p1 == 0 || text@[p1 - 1] == '\n') && (p2
                == text@.len() || text@[p2] == '\n') && (forall|k: int|
                p1 <= k < p2 ==> text@[k] != '\n') && fragment@ == trimmed(
                #[trigger] text@.subrange(p1, p2),
            ))),
        text@.len() == 0 ==> (r matches Ok(doc) && doc.sections@.len() == 0),
{
    let n = text.unicode_len();
    let mut sections: Vec<Section> = Vec::new();
    let mut pos: usize = 0;
    let mut line_no: usize = 1;
    let ghost mut vtexts: Seq<Seq<Seq<char>>> = Seq::empty();
    let ghost mut vspans: Seq<Seq<(int, int)>> = Seq::empty();
    proof {
        assert(text@.subrange(0, n as int) =~= text@);
        assert(names_of(sections@) =~= Seq::<Seq<char>>::empty());
        assert(Seq::<Seq<char>>::empty() + section_names(text@, false) =~= section_names(
            text@,
            false,
        ));
        assert(keys_of(sections@) =~= Seq::<Seq<Seq<char>>>::empty());
    }
    while pos < n
        invariant
            pos <= n + 1,
            line_no <= pos + 1,
            pos == 0 || pos > n || text@[pos - 1] == '\n',
            n as int == text@.len(),
            text@.len() + 2 < usize::MAX,
            names_unique(sections@),
            sections_spanned(sections@),
            n == 0 ==> sections@.len() == 0,
            pos <= n ==> (all_lines_valid(text@) <==> all_lines_valid(
                text@.subrange(pos as int, n as int),
            )),
            pos > n ==> all_lines_valid(text@),
            pos <= n ==> section_names(text@, false) == names_of(sections@) + section_names(
                text@.subrange(pos as int, n as int),
                sections@.len() > 0,
            ),
            pos > n ==> section_names(text@, false) == names_of(sections@),
            pos <= n ==> section_keys(text@, false) == (if sections@.len() == 0 {
                section_keys(text@.subrange(pos as int, n as int), false)
            } else {
                keys_of(sections@).drop_last() + seq![
                    keys_of(sections@).last() + pending_keys(
                        text@.subrange(pos as int, n as int),
                    ),
                ] + section_keys(text@.subrange(pos as int, n as int), true)
            }),
            pos > n ==> section_keys(text@, false) == keys_of(sections@),
            vtexts.len() == sections@.len(),
            forall|i: int| 0 <= i < vtexts.len() ==> (#[trigger] vtexts[i]).len()
                == sections@[i].entries@.len(),
            forall|i: int, k: int|
                0 <= i < vtexts.len() && 0 <= k < vtexts[i].len() ==> value_text_matches(
                    (#[trigger] sections@[i].entries@[k]).value,
                    vtexts[i][k],
                ),
            pos <= n ==> section_value_texts(text@, false) == (if sections@.len() == 0 {
                section_value_texts(text@.subrange(pos as int, n as int), false)
            } else {
                vtexts.drop_last() + seq![
                    vtexts.last() + pending_value_texts(text@.subrange(pos as int, n as int)),
                ] + section_value_texts(text@.subrange(pos as int, n as int), true)
            }),
            pos > n ==> section_value_texts(text@, false) == vtexts,
            vspans.len() == sections@.len(),
            forall|i: int| 0 <= i < vspans.len() ==> (#[trigger] vspans[i]).len()
                == sections@[i].entries@.len(),
            forall|i: int, k: int|
                0 <= i < vspans.len() && 0 <= k < vspans[i].len() ==> value_span_matches(
                    (#[trigger] sections@[i].entries@[k]).value,
                    vspans[i][k],
                ),
            pos <= n ==> section_value_spans(text@, false, 1) == (if sections@.len() == 0 {
                section_value_spans(
                    text@.subrange(pos as int, n as int),
                    false,
                    line_no as int,
                )
            } else {
                vspans.drop_last() + seq![
                    vspans.last() + pending_value_spans(
                        text@.subrange(pos as int, n as int),
                        line_no as int,
                    ),
                ] + section_value_spans(
                    text@.subrange(pos as int, n as int),
                    true,
                    line_no as int,
                )
            }),
            pos > n ==> section_value_spans(text@, false, 1) == vspans,
        decreases n + 1 - pos,
    {
        let mut j: usize = pos;
        while j < n && text.get_char(j) != '\n'
            invariant
                pos <= j <= n,
                n as int == text@.len(),
                forall|k: int| pos <= k < j ==> text@[k] != '\n',
            decreases n - j,
        {
            j += 1;
        }
        let line = text.substring_char(pos, j);
        let ghost rest = text@.subrange(pos as int, n as int);
        let ghost opened = sections@.len() > 0;
        proof {
            assert forall|k: int| 0 <= k < j - pos implies rest[k] != '\n' by {
                assert(rest[k] == text@[pos + k]);
            }
            assert(j < n ==> rest[j - pos] == text@[j as int]);
            lemma_first_nl_at(rest, j - pos);
            assert(rest.subrange(0, j - pos) =~= line@);
            if j < n {
                assert(rest.subrange(j - pos + 1, rest.len() as int) =~= text@.subrange(
                    j + 1,
                    n as int,
                ));
            }
        }
        let ghost before = sections@;
        match process_line(&mut sections, line, line_no, path) {
            Err(err) => {
                proof {
                    let nb = names_of(before);
                    let full = section_names(text@, false);
                    assert(full == nb + section_names(rest, opened));
                    if !valid_line(line@) {
                        assert(rest.subrange(0, first_nl(rest) as int) == line@);
                        assert(!all_lines_valid(rest));
                        assert(!all_lines_valid(text@));
                    } else {
                        assert(is_header_shape(line@));
                        let w = choose|i: int|
                            0 <= i < before.len() && before[i].name@ == header_name(line@);
                        assert(!is_blank_spec(line@));
                        assert(line_names_delta(line@, opened) == seq![header_name(line@)]);
                        assert(section_names(rest, opened)[0] == header_name(line@));
                        assert(full[w] == nb[w]);
                        assert(nb[w] == before[w].name@);
                        assert(full[nb.len() as int] == section_names(rest, opened)[0]);
                        assert(0 <= w < nb.len());
                        assert(!names_distinct(full));
                    }
                }
                proof {
                    assert(line@ == text@.subrange(pos as int, j as int));
                    let jj = j as int;
                    assert(0 <= pos as int <= jj <= text@.len() && (pos as int == 0
                        || text@[pos - 1] == '\n') && (jj == text@.len() || text@[jj] == '\n')
                        && (forall|k: int| pos <= k < j ==> text@[k] != '\n'));
                }
                return Err(err);
            },
            Ok(()) => {},
        }
        proof {
            let ghost tail_open = sections@.len() > 0;
            assert(tail_open == (opened || !is_blank_spec(line@)));
            let tail: Seq<Seq<char>> = if j < n {
                section_names(text@.subrange(j + 1, n as int), tail_open)
            } else {
                Seq::<Seq<char>>::empty()
            };
            assert(section_names(rest, opened) == line_names_delta(line@, opened) + tail);
            assert(names_of(before) + (line_names_delta(line@, opened) + tail) =~= (names_of(
                before,
            ) + line_names_delta(line@, opened)) + tail);
            assert(section_names(text@, false) == names_of(sections@) + tail);
            if j < n {
                assert(all_lines_valid(rest) <==> all_lines_valid(
                    text@.subrange(j + 1, n as int),
                ));
            } else {
                assert(all_lines_valid(rest));
                assert(names_of(sections@) + tail =~= names_of(sections@));
            }
            let tailp: Seq<Seq<char>> = if j < n {
                pending_keys(text@.subrange(j + 1, n as int))
            } else {
                Seq::<Seq<char>>::empty()
            };
            let tailk: Seq<Seq<Seq<char>>> = if j < n {
                section_keys(text@.subrange(j + 1, n as int), tail_open)
            } else {
                Seq::<Seq<Seq<char>>>::empty()
            };
            assert(pending_keys(rest) == (if is_header_shape(line@) {
                Seq::<Seq<char>>::empty()
            } else if is_blank_spec(line@) {
                tailp
            } else {
                seq![entry_key(line@)] + tailp
            }));
            assert(section_keys(rest, opened) == (if is_blank_spec(line@) {
                tailk
            } else if is_header_shape(line@) {
                seq![tailp] + tailk
            } else if !opened {
                seq![seq![entry_key(line@)] + tailp] + tailk
            } else {
                tailk
            }));
            if is_blank_spec(line@) {
                if before.len() > 0 && j == n {
                    assert(keys_of(before).last() + pending_keys(rest) =~= keys_of(
                        before,
                    ).last());
                    assert(keys_of(before).drop_last() + seq![keys_of(before).last()]
                        =~~= keys_of(before));
                }
                if before.len() == 0 && j == n {
                    assert(keys_of(sections@) =~= Seq::<Seq<Seq<char>>>::empty());
                }
            } else if is_header_shape(line@) {
                assert(keys_of(sections@) == keys_of(before) + seq![
                    Seq::<Seq<char>>::empty(),
                ]);
                assert(keys_of(sections@).drop_last() =~~= keys_of(before));
                assert(keys_of(sections@).last() =~= Seq::<Seq<char>>::empty());
                assert(keys_of(sections@).last() + tailp =~= tailp);
                if before.len() > 0 {
                    assert(keys_of(before).last() + pending_keys(rest) =~= keys_of(
                        before,
                    ).last());
                    assert(keys_of(before).drop_last() + seq![keys_of(before).last()
                        + pending_keys(rest)] + section_keys(rest, true) =~~= keys_of(
                        before,
                    ) + seq![tailp] + tailk);
                }
                assert(keys_of(before) + (seq![tailp] + tailk) =~~= (keys_of(before) + seq![
                    tailp,
                ]) + tailk);
                assert(keys_of(sections@).drop_last() + seq![keys_of(sections@).last()
                    + tailp] + tailk =~~= (keys_of(before) + seq![tailp]) + tailk);
            } else {
                if before.len() == 0 {
                    assert(keys_of(sections@) == seq![seq![entry_key(line@)]]);
                    assert(keys_of(sections@).drop_last()
                        =~~= Seq::<Seq<Seq<char>>>::empty());
                    assert(keys_of(sections@).last() =~= seq![entry_key(line@)]);
                    assert(keys_of(sections@).last() + tailp =~= seq![entry_key(line@)]
                        + tailp);
                    assert(keys_of(sections@).drop_last() + seq![keys_of(
                        sections@,
                    ).last() + tailp] + tailk =~~= seq![seq![entry_key(line@)] + tailp]
                        + tailk);
                } else {
                    let kb = keys_of(before);
                    assert(keys_of(sections@) == kb.update(
                        before.len() - 1,
                        kb.last().push(entry_key(line@)),
                    ));
                    assert(keys_of(sections@).drop_last() =~~= kb.drop_last());
                    assert(keys_of(sections@).last() =~= kb.last().push(entry_key(
                        line@,
                    )));
                    assert(kb.last() + (seq![entry_key(line@)] + tailp) =~= kb.last().push(
                        entry_key(line@),
                    ) + tailp);
                    assert(kb.drop_last() + seq![kb.last() + pending_keys(rest)] + tailk
                        =~~= kb.drop_last() + seq![kb.last().push(entry_key(line@))
                        + tailp] + tailk);
                    assert(keys_of(sections@).drop_last() + seq![keys_of(
                        sections@,
                    ).last() + tailp] + tailk =~~= kb.drop_last() + seq![kb.last().push(
                        entry_key(line@),
                    ) + tailp] + tailk);
                }
            }
        }
        proof {
            let vold = vtexts;
            let vtailp: Seq<Seq<char>> = if j < n {
                pending_value_texts(text@.subrange(j + 1, n as int))
            } else {
                Seq::<Seq<char>>::empty()
            };
            let vtailk: Seq<Seq<Seq<char>>> = if j < n {
                section_value_texts(text@.subrange(j + 1, n as int), sections@.len() > 0)
            } else {
                Seq::<Seq<Seq<char>>>::empty()
            };
            assert(pending_value_texts(rest) == (if is_header_shape(line@) {
                Seq::<Seq<char>>::empty()
            } else if is_blank_spec(line@) {
                vtailp
            } else {
                seq![entry_value_text(line@)] + vtailp
            }));
            assert(section_value_texts(rest, opened) == (if is_blank_spec(line@) {
                vtailk
            } else if is_header_shape(line@) {
                seq![vtailp] + vtailk
            } else if !opened {
                seq![seq![entry_value_text(line@)] + vtailp] + vtailk
            } else {
                vtailk
            }));
            if is_blank_spec(line@) {
                if vold.len() > 0 && j == n {
                    assert(vold.last() + pending_value_texts(rest) =~= vold.last());
                    assert(vold.drop_last() + seq![vold.last()] =~~= vold);
                }
                if vold.len() == 0 && j == n {
                    assert(vold =~= Seq::<Seq<Seq<char>>>::empty());
                }
            } else if is_header_shape(line@) {
                vtexts = vold.push(Seq::<Seq<char>>::empty());
                assert(vtexts.drop_last() =~~= vold);
                assert(vtexts.last() =~= Seq::<Seq<char>>::empty());
                assert(vtexts.last() + vtailp =~= vtailp);
                if vold.len() > 0 {
                    assert(vold.last() + pending_value_texts(rest) =~= vold.last());
                    assert(vold.drop_last() + seq![vold.last() + pending_value_texts(rest)]
                        + section_value_texts(rest, true) =~~= vold + seq![vtailp] + vtailk);
                }
                assert(vold + (seq![vtailp] + vtailk) =~~= (vold + seq![vtailp]) + vtailk);
                assert(vtexts.drop_last() + seq![vtexts.last() + vtailp] + vtailk =~~= (vold
                    + seq![vtailp]) + vtailk);
                assert forall|i2: int|
                    0 <= i2 < vtexts.len() implies (#[trigger] vtexts[i2]).len()
                    == sections@[i2].entries@.len() by {
                    if i2 < vtexts.len() - 1 {
                        assert(sections@.drop_last()[i2] == before[i2]);
                        assert(sections@[i2] == before[i2]);
                        assert(vtexts[i2] == vold[i2]);
                    }
                }
                assert forall|i2: int, k2: int|
                    0 <= i2 < vtexts.len() && 0 <= k2 < vtexts[i2].len() implies
                    value_text_matches(
                    (#[trigger] sections@[i2].entries@[k2]).value,
                    vtexts[i2][k2],
                ) by {
                    assert(i2 < vtexts.len() - 1);
                    assert(sections@.drop_last()[i2] == before[i2]);
                    assert(sections@[i2] == before[i2]);
                    assert(vtexts[i2] == vold[i2]);
                }
            } else {
                if opened {
                    vtexts = vold.update(
                        vold.len() - 1,
                        vold.last().push(entry_value_text(line@)),
                    );
                    assert(vtexts.drop_last() =~~= vold.drop_last());
                    assert(vtexts.last() =~= vold.last().push(entry_value_text(line@)));
                    assert(vold.last() + (seq![entry_value_text(line@)] + vtailp)
                        =~= vold.last().push(entry_value_text(line@)) + vtailp);
                    assert(vold.drop_last() + seq![vold.last() + pending_value_texts(rest)]
                        + vtailk =~~= vold.drop_last() + seq![vold.last().push(
                        entry_value_text(line@),
                    ) + vtailp] + vtailk);
                    assert(vtexts.drop_last() + seq![vtexts.last() + vtailp] + vtailk
                        =~~= vold.drop_last() + seq![vold.last().push(entry_value_text(
                        line@,
                    )) + vtailp] + vtailk);
                    assert(sections@.last().entries@.drop_last() == before.last().entries@);
                    assert forall|i2: int|
                        0 <= i2 < vtexts.len() implies (#[trigger] vtexts[i2]).len()
                        == sections@[i2].entries@.len() by {
                        if i2 < vtexts.len() - 1 {
                            assert(sections@[i2] == before[i2]);
                        } else {
                            assert(sections@[i2].entries@.len()
                                == before.last().entries@.len() + 1);
                        }
                    }
                    assert forall|i2: int, k2: int|
                        0 <= i2 < vtexts.len() && 0 <= k2 < vtexts[i2].len() implies
                        value_text_matches(
                        (#[trigger] sections@[i2].entries@[k2]).value,
                        vtexts[i2][k2],
                    ) by {
                        if i2 < vtexts.len() - 1 {
                            assert(sections@[i2] == before[i2]);
                            assert(vtexts[i2] == vold[i2]);
                        } else {
                            if k2 < vtexts[i2].len() - 1 {
                                assert(sections@[i2].entries@[k2]
                                    == sections@[i2].entries@.drop_last()[k2]);
                                assert(sections@[i2].entries@[k2]
                                    == before.last().entries@[k2]);
                                assert(vtexts[i2][k2] == vold.last()[k2]);
                            } else {
                                assert(sections@[i2].entries@[k2]
                                    == sections@.last().entries@.last());
                                assert(vtexts[i2][k2] == entry_value_text(line@));
                            }
                        }
                    }
                } else {
                    vtexts = seq![seq![entry_value_text(line@)]];
                    assert(sections@.len() == 1);
                    assert(vtexts.drop_last() =~~= Seq::<Seq<Seq<char>>>::empty());
                    assert(vtexts.last() =~= seq![entry_value_text(line@)]);
                    assert(vtexts.last() + vtailp =~= seq![entry_value_text(line@)] + vtailp);
                    assert(vtexts.drop_last() + seq![vtexts.last() + vtailp] + vtailk
                        =~~= seq![seq![entry_value_text(line@)] + vtailp] + vtailk);
                    assert(sections@[0].entries@.len() == 1);
                    assert(sections@[0].entries@[0] == sections@.last().entries@.last());
                }
            }
        }
        proof {
            let sold = vspans;
            let line0 = line_no as int;
            let stailp: Seq<(int, int)> = if j < n {
                pending_value_spans(text@.subrange(j + 1, n as int), line0 + 1)
            } else {
                Seq::<(int, int)>::empty()
            };
            let stailk: Seq<Seq<(int, int)>> = if j < n {
                section_value_spans(text@.subrange(j + 1, n as int), sections@.len() > 0, line0 + 1)
            } else {
                Seq::<Seq<(int, int)>>::empty()
            };
            let here: (int, int) = (line0, value_column(line@));
            assert(pending_value_spans(rest, line0) == (if is_header_shape(line@) {
                Seq::<(int, int)>::empty()
            } else if is_blank_spec(line@) {
                stailp
            } else {
                seq![here] + stailp
            }));
            assert(section_value_spans(rest, opened, line0) == (if is_blank_spec(line@) {
                stailk
            } else if is_header_shape(line@) {
                seq![stailp] + stailk
            } else if !opened {
                seq![seq![here] + stailp] + stailk
            } else {
                stailk
            }));
            if is_blank_spec(line@) {
                if sold.len() > 0 && j == n {
                    assert(sold.last() + pending_value_spans(rest, line0) =~= sold.last());
                    assert(sold.drop_last() + seq![sold.last()] =~~= sold);
                }
                if sold.len() == 0 && j == n {
                    assert(sold =~= Seq::<Seq<(int, int)>>::empty());
                }
            } else if is_header_shape(line@) {
                vspans = sold.push(Seq::<(int, int)>::empty());
                assert(vspans.drop_last() =~~= sold);
                assert(vspans.last() =~= Seq::<(int, int)>::empty());
                assert(vspans.last() + stailp =~= stailp);
                if sold.len() > 0 {
                    assert(sold.last() + pending_value_spans(rest, line0) =~= sold.last());
                    assert(sold.drop_last() + seq![sold.last() + pending_value_spans(
                        rest,
                        line0,
                    )] + section_value_spans(rest, true, line0) =~~= sold + seq![stailp]
                        + stailk);
                }
                assert(sold + (seq![stailp] + stailk) =~~= (sold + seq![stailp]) + stailk);
                assert(vspans.drop_last() + seq![vspans.last() + stailp] + stailk =~~= (sold
                    + seq![stailp]) + stailk);
                assert forall|i2: int|
                    0 <= i2 < vspans.len() implies (#[trigger] vspans[i2]).len()
                    == sections@[i2].entries@.len() by {
                    if i2 < vspans.len() - 1 {
                        assert(sections@.drop_last()[i2] == before[i2]);
                        assert(sections@[i2] == before[i2]);
                        assert(vspans[i2] == sold[i2]);
                    }
                }
                assert forall|i2: int, k2: int|
                    0 <= i2 < vspans.len() && 0 <= k2 < vspans[i2].len() implies
                    value_span_matches(
                    (#[trigger] sections@[i2].entries@[k2]).value,
                    vspans[i2][k2],
                ) by {
                    assert(i2 < vspans.len() - 1);
                    assert(sections@.drop_last()[i2] == before[i2]);
                    assert(sections@[i2] == before[i2]);
                    assert(vspans[i2] == sold[i2]);
                }
            } else {
                if opened {
                    vspans = sold.update(sold.len() - 1, sold.last().push(here));
                    assert(vspans.drop_last() =~~= sold.drop_last());
                    assert(vspans.last() =~= sold.last().push(here));
                    assert(sold.last() + (seq![here] + stailp) =~= sold.last().push(here)
                        + stailp);
                    assert(sold.drop_last() + seq![sold.last() + pending_value_spans(
                        rest,
                        line0,
                    )] + stailk =~~= sold.drop_last() + seq![sold.last().push(here) + stailp]
                        + stailk);
                    assert(vspans.drop_last() + seq![vspans.last() + stailp] + stailk
                        =~~= sold.drop_last() + seq![sold.last().push(here) + stailp]
                        + stailk);
                    assert(sections@.last().entries@.drop_last() == before.last().entries@);
                    assert forall|i2: int|
                        0 <= i2 < vspans.len() implies (#[trigger] vspans[i2]).len()
                        == sections@[i2].entries@.len() by {
                        if i2 < vspans.len() - 1 {
                            assert(sections@[i2] == before[i2]);
                        } else {
                            assert(sections@[i2].entries@.len()
                                == before.last().entries@.len() + 1);
                        }
                    }
                    assert forall|i2: int, k2: int|
                        0 <= i2 < vspans.len() && 0 <= k2 < vspans[i2].len() implies
                        value_span_matches(
                        (#[trigger] sections@[i2].entries@[k2]).value,
                        vspans[i2][k2],
                    ) by {
                        if i2 < vspans.len() - 1 {
                            assert(sections@[i2] == before[i2]);
                            assert(vspans[i2] == sold[i2]);
                        } else {
                            if k2 < vspans[i2].len() - 1 {
                                assert(sections@[i2].entries@[k2]
                                    == sections@[i2].entries@.drop_last()[k2]);
                                assert(sections@[i2].entries@[k2]
                                    == before.last().entries@[k2]);
                                assert(vspans[i2][k2] == sold.last()[k2]);
                            } else {
                                assert(sections@[i2].entries@[k2]
                                    == sections@.last().entries@.last());
                                assert(vspans[i2][k2] == here);
                            }
                        }
                    }
                } else {
                    vspans = seq![seq![here]];
                    assert(sections@.len() == 1);
                    assert(vspans.drop_last() =~~= Seq::<Seq<(int, int)>>::empty());
                    assert(vspans.last() =~= seq![here]);
                    assert(vspans.last() + stailp =~= seq![here] + stailp);
                    assert(vspans.drop_last() + seq![vspans.last() + stailp] + stailk
                        =~~= seq![seq![here] + stailp] + stailk);
                    assert(sections@[0].entries@.len() == 1);
                    assert(sections@[0].entries@[0] == sections@.last().entries@.last());
                }
            }
        }
        pos = j + 1;
        line_no = line_no + 1;
    }
    proof {
        if pos == n {
            let er = text@.subrange(pos as int, n as int);
            assert(er.len() == 0);
            if sections@.len() == 0 {
                assert(keys_of(sections@) =~= Seq::<Seq<Seq<char>>>::empty());
            } else {
                assert(keys_of(sections@).last() + pending_keys(er) =~= keys_of(
                    sections@,
                ).last());
                assert(keys_of(sections@).drop_last() + seq![keys_of(sections@).last()
                    + pending_keys(er)] + section_keys(er, true) =~~= keys_of(sections@));
                assert(vtexts.last() + pending_value_texts(er) =~= vtexts.last());
                assert(vtexts.drop_last() + seq![vtexts.last() + pending_value_texts(er)]
                    + section_value_texts(er, true) =~~= vtexts);
                assert(vspans.last() + pending_value_spans(er, line_no as int)
                    =~= vspans.last());
                assert(vspans.drop_last() + seq![vspans.last() + pending_value_spans(
                    er,
                    line_no as int,
                )] + section_value_spans(er, true, line_no as int) =~~= vspans);
            }
            if sections@.len() == 0 {
                assert(vtexts =~= Seq::<Seq<Seq<char>>>::empty());
                assert(vspans =~= Seq::<Seq<(int, int)>>::empty());
            }
        }
        assert(names_of(sections@) + Seq::<Seq<char>>::empty() =~= names_of(sections@));
        assert forall|i: int, j2: int|
            0 <= i < j2 < section_names(text@, false).len() implies section_names(text@, false)[i]
            != section_names(text@, false)[j2] by {
            assert(section_names(text@, false)[i] == sections@[i].name@);
            assert(section_names(text@, false)[j2] == sections@[j2].name@);
        }
    }
    Ok(Document { sections })
}

} // verus!
