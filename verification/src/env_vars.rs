//! Environment-variable interpolation in TOML configuration text.
//!
//! A reference is written `${NAME}` or `${NAME:default}`. Before the text is
//! handed to a TOML parser, every reference outside a quoted string is
//! replaced by a placeholder literal: its default value when that is a
//! boolean or a number, the quoted default otherwise, and `""` when there is
//! no default. References inside quoted strings are left alone, since they
//! are legal TOML strings already.

use vstd::prelude::*;
use crate::lsp::{Position, Range};
use crate::text::{push_char, string_of};

verus! {

/// An interpolation reference found in configuration text.
#[derive(Debug, Clone, PartialEq, Eq)]
pub struct EnvVarReference {
    /// Variable name (text before the first `:`).
    pub name: String,
    /// Default value (text after the first `:`), if any.
    pub default: Option<String>,
    /// Where the reference stands, on one line.
    pub range: Range,
}

/// The mathematical content of an [`EnvVarReference`].
pub struct EnvVarRefView {
    pub name: Seq<char>,
    pub default: Option<Seq<char>>,
    pub range: Range,
}

impl View for EnvVarReference {
    type V = EnvVarRefView;

    open spec fn view(&self) -> EnvVarRefView {
        EnvVarRefView {
            name: self.name@,
            default: match self.default {
                Some(d) => Some(d@),
                None => None,
            },
            range: self.range,
        }
    }
}

pub open spec fn is_digit(c: char) -> bool {
    '0' <= c <= '9'
}

pub open spec fn all_digits(s: Seq<char>) -> bool {
    forall|i: int| 0 <= i < s.len() ==> is_digit(#[trigger] s[i])
}

/// `s` with one leading `+` or `-` removed, if present.
pub open spec fn strip_sign(s: Seq<char>) -> Seq<char> {
    if s.len() > 0 && (s[0] == '+' || s[0] == '-') {
        s.drop_first()
    } else {
        s
    }
}

/// ASCII case-insensitive equality with a lower-case word.
pub open spec fn eq_ignore_case(s: Seq<char>, lower: Seq<char>) -> bool {
    &&& s.len() == lower.len()
    &&& forall|i: int|
        0 <= i < s.len() ==> (#[trigger] s[i] == lower[i] || (s[i] as u32) + 32 == (lower[i] as u32)
            && 'a' <= lower[i] <= 'z')
}

/// The first index `>= k` at which `s` does not hold a digit, or `s.len()`.
pub open spec fn digit_run(s: Seq<char>, k: int) -> int
    decreases s.len() - k,
{
    if k < 0 || k >= s.len() {
        s.len() as int
    } else if !is_digit(s[k]) {
        k
    } else {
        digit_run(s, k + 1)
    }
}

/// `('e' | 'E') Sign? Digit+`.
pub open spec fn is_exponent(e: Seq<char>) -> bool {
    &&& e.len() >= 2
    &&& (e[0] == 'e' || e[0] == 'E')
    &&& strip_sign(e.drop_first()).len() > 0
    &&& all_digits(strip_sign(e.drop_first()))
}

/// `(Digit+ | Digit+ '.' Digit* | Digit* '.' Digit+) Exponent?`: an unsigned
/// decimal number.
pub open spec fn is_decimal_number(s: Seq<char>) -> bool {
    let a = digit_run(s, 0);
    if a == s.len() {
        a > 0
    } else if s[a] == '.' {
        let b = digit_run(s, a + 1);
        (a > 0 || b > a + 1) && (b == s.len() || is_exponent(s.subrange(b, s.len() as int)))
    } else {
        a > 0 && is_exponent(s.subrange(a, s.len() as int))
    }
}

/// The strings that `f64::from_str` accepts, as its documentation gives the
/// grammar: an optional sign, then `inf`, `infinity`, `nan` (any case) or a
/// decimal number. Every string that `i64::from_str` accepts is among them.
pub open spec fn is_float_text(s: Seq<char>) -> bool {
    let b = strip_sign(s);
    ||| eq_ignore_case(b, seq!['i', 'n', 'f'])
    ||| eq_ignore_case(b, seq!['i', 'n', 'f', 'i', 'n', 'i', 't', 'y'])
    ||| eq_ignore_case(b, seq!['n', 'a', 'n'])
    ||| is_decimal_number(b)
}

/// Whether a default value is written without quotes in the placeholder:
/// `true`, `false`, or a number.
pub open spec fn is_bare_literal(d: Seq<char>) -> bool {
    ||| d == seq!['t', 'r', 'u', 'e']
    ||| d == seq!['f', 'a', 'l', 's', 'e']
    ||| is_float_text(d)
}

/// `s` with every `"` preceded by a backslash.
pub open spec fn escape_quotes(s: Seq<char>) -> Seq<char>
    decreases s.len(),
{
    if s.len() == 0 {
        seq![]
    } else {
        (if s[0] == '"' {
            seq!['\\', '"']
        } else {
            seq![s[0]]
        }) + escape_quotes(s.drop_first())
    }
}

/// The literal that replaces a reference with the given default.
pub open spec fn placeholder(default: Option<Seq<char>>) -> Seq<char> {
    match default {
        Some(d) => if is_bare_literal(d) {
            d
        } else {
            seq!['"'] + escape_quotes(d) + seq!['"']
        },
        None => seq!['"', '"'],
    }
}

/// The first index `>= k` at which `c` holds `ch`, or `c.len()` if none.
pub open spec fn index_of_from(c: Seq<char>, ch: char, k: int) -> int
    decreases c.len() - k,
{
    if k < 0 || k >= c.len() {
        c.len() as int
    } else if c[k] == ch {
        k
    } else {
        index_of_from(c, ch, k + 1)
    }
}

/// Lexer state while scanning: inside a `"` string, inside a `"""`
/// string, after a backslash, and the current line and where it starts.
pub struct LexState {
    pub in_string: bool,
    pub in_multiline: bool,
    pub escape_next: bool,
    pub line: int,
    pub line_start: int,
}

/// Output of scanning: rewritten text and the references found.
pub struct ScanOut {
    pub text: Seq<char>,
    pub refs: Seq<EnvVarRefView>,
}

pub open spec fn emit(chars: Seq<char>, rest: ScanOut) -> ScanOut {
    ScanOut { text: chars + rest.text, refs: rest.refs }
}

/// The reference spelled by `c[i..=j]` (which is `${...}`), at `line`.
pub open spec fn reference_at(c: Seq<char>, i: int, j: int, line: int, line_start: int) -> EnvVarRefView {
    let content = c.subrange(i + 2, j);
    let colon = index_of_from(content, ':', 0);
    EnvVarRefView {
        name: content.subrange(0, colon),
        default: if colon < content.len() {
            Some(content.subrange(colon + 1, content.len() as int))
        } else {
            None
        },
        range: Range {
            start: Position { line: line as u32, character: (i - line_start) as u32 },
            end: Position { line: line as u32, character: (j + 1 - line_start) as u32 },
        },
    }
}

/// Scans `c` from index `i` in state `st`. This is the lexer: escapes and
/// quotes are copied and toggle the string modes; an unquoted `${...}`
/// closed by a later `}` becomes its placeholder and is recorded; every
/// other character is copied. A newline read at the scan position (not one
/// skipped inside a reference) starts a new line.
pub open spec fn scan(c: Seq<char>, i: int, st: LexState) -> ScanOut
    decreases c.len() - i,
{
    if i < 0 || i >= c.len() {
        ScanOut { text: seq![], refs: seq![] }
    } else {
        let st = if c[i] == '\n' {
            LexState { line: st.line + 1, line_start: i + 1, ..st }
        } else {
            st
        };
        if st.escape_next {
            emit(seq![c[i]], scan(c, i + 1, LexState { escape_next: false, ..st }))
        } else if c[i] == '\\' && (st.in_string || st.in_multiline) {
            emit(seq![c[i]], scan(c, i + 1, LexState { escape_next: true, ..st }))
        } else if i + 2 < c.len() && c[i] == '"' && c[i + 1] == '"' && c[i + 2] == '"' {
            emit(
                seq!['"', '"', '"'],
                scan(c, i + 3, LexState { in_multiline: !st.in_multiline, ..st }),
            )
        } else if c[i] == '"' && !st.in_multiline {
            emit(seq![c[i]], scan(c, i + 1, LexState { in_string: !st.in_string, ..st }))
        } else if !st.in_string && !st.in_multiline && i + 1 < c.len() && c[i] == '$' && c[i + 1]
            == '{' && index_of_from(c, '}', i + 2) < c.len() {
            let j = index_of_from(c, '}', i + 2);
            proof {
                lemma_index_of_from_bounds(c, '}', i + 2);
            }
            let r = reference_at(c, i, j, st.line, st.line_start);
            let rest = scan(c, j + 1, st);
            ScanOut { text: placeholder(r.default) + rest.text, refs: seq![r] + rest.refs }
        } else {
            emit(seq![c[i]], scan(c, i + 1, st))
        }
    }
}

pub open spec fn initial_state() -> LexState {
    LexState { in_string: false, in_multiline: false, escape_next: false, line: 0, line_start: 0 }
}

/// The rewritten text and references for configuration text `c`.
pub open spec fn spec_preprocess(c: Seq<char>) -> ScanOut {
    scan(c, 0, initial_state())
}


/// The first index `>= k` at which `s` does not hold a digit.
fn exec_digit_run(s: &Vec<char>, k: usize) -> (r: usize)
    requires
        k <= s@.len(),
    ensures
        r as int == digit_run(s@, k as int),
        k <= r <= s@.len(),
    decreases s@.len() - k,
{
    if k >= s.len() {
        s.len()
    } else if !('0' <= s[k] && s[k] <= '9') {
        k
    } else {
        exec_digit_run(s, k + 1)
    }
}

fn exec_all_digits(s: &Vec<char>, from: usize) -> (b: bool)
    requires
        from <= s@.len(),
    ensures
        b == all_digits(s@.subrange(from as int, s@.len() as int)),
{
    let r = exec_digit_run(s, from);
    proof {
        lemma_digit_run_all(s@, from as int);
    }
    r == s.len()
}

proof fn lemma_digit_run_all(s: Seq<char>, k: int)
    requires
        0 <= k <= s.len(),
    ensures
        all_digits(s.subrange(k, s.len() as int)) <==> digit_run(s, k) == s.len(),
        k <= digit_run(s, k) <= s.len(),
        forall|i: int| k <= i < digit_run(s, k) ==> is_digit(#[trigger] s[i]),
        digit_run(s, k) < s.len() ==> !is_digit(s[digit_run(s, k)]),
    decreases s.len() - k,
{
    if k < s.len() {
        lemma_digit_run_all(s, k + 1);
        let sub = s.subrange(k, s.len() as int);
        if is_digit(s[k]) {
            assert(s.subrange(k + 1, s.len() as int) =~= sub.drop_first());
            if all_digits(sub) {
                assert forall|i: int| 0 <= i < sub.drop_first().len() implies is_digit(
                    #[trigger] sub.drop_first()[i],
                ) by {
                    assert(sub.drop_first()[i] == sub[i + 1]);
                }
            }
            if all_digits(s.subrange(k + 1, s.len() as int)) {
                assert forall|i: int| 0 <= i < sub.len() implies is_digit(#[trigger] sub[i]) by {
                    if i > 0 {
                        assert(sub[i] == s.subrange(k + 1, s.len() as int)[i - 1]);
                    }
                }
            }
        } else {
            assert(sub[0] == s[k]);
        }
    } else {
        assert(s.subrange(k, s.len() as int) =~= Seq::<char>::empty());
    }
}

fn exec_is_exponent(s: &Vec<char>, from: usize) -> (b: bool)
    requires
        from <= s@.len(),
    ensures
        b == is_exponent(s@.subrange(from as int, s@.len() as int)),
{
    let ghost e = s@.subrange(from as int, s@.len() as int);
    if s.len() - from < 2 {
        return false;
    }
    if !(s[from] == 'e' || s[from] == 'E') {
        return false;
    }
    let mut k = from + 1;
    if s[k] == '+' || s[k] == '-' {
        k = k + 1;
    }
    proof {
        assert(e.drop_first() =~= s@.subrange(from + 1, s@.len() as int));
        assert(strip_sign(e.drop_first()) =~= s@.subrange(k as int, s@.len() as int));
    }
    if k == s.len() {
        return false;
    }
    exec_all_digits(s, k)
}

fn exec_is_decimal_number(s: &Vec<char>, from: usize) -> (b: bool)
    requires
        from <= s@.len(),
    ensures
        b == is_decimal_number(s@.subrange(from as int, s@.len() as int)),
{
    let ghost t = s@.subrange(from as int, s@.len() as int);
    let a = exec_digit_run(s, from);
    proof {
        lemma_digit_run_shift(s@, from as int, from as int);
    }
    if a == s.len() {
        return a > from;
    }
    if s[a] == '.' {
        let b = exec_digit_run(s, a + 1);
        proof {
            lemma_digit_run_shift(s@, from as int, a + 1);
            assert(t.subrange(b - from, t.len() as int) =~= s@.subrange(b as int, s@.len() as int));
        }
        let ok = a > from || b > a + 1;
        if !ok {
            return false;
        }
        if b == s.len() {
            return true;
        }
        exec_is_exponent(s, b)
    } else {
        proof {
            assert(t.subrange(a - from, t.len() as int) =~= s@.subrange(a as int, s@.len() as int));
        }
        a > from && exec_is_exponent(s, a)
    }
}

/// `digit_run` on a suffix is `digit_run` on the whole, shifted.
proof fn lemma_digit_run_shift(s: Seq<char>, from: int, k: int)
    requires
        0 <= from <= k <= s.len(),
    ensures
        digit_run(s.subrange(from, s.len() as int), k - from) == digit_run(s, k) - from,
    decreases s.len() - k,
{
    if k < s.len() {
        lemma_digit_run_shift(s, from, k + 1);
    }
}

fn exec_eq_ignore_case(s: &Vec<char>, from: usize, lower: &str) -> (b: bool)
    requires
        from <= s@.len(),
    ensures
        b == eq_ignore_case(s@.subrange(from as int, s@.len() as int), lower@),
{
    let ghost t = s@.subrange(from as int, s@.len() as int);
    let n = lower.unicode_len();
    if s.len() - from != n {
        return false;
    }
    let mut i: usize = 0;
    while i < n
        invariant
            n == lower@.len(),
            from <= s@.len(),
            s@.len() - from == n,
            from + n == s.len(),
            t == s@.subrange(from as int, s@.len() as int),
            i <= n,
            forall|k: int|
                0 <= k < i ==> (#[trigger] t[k] == lower@[k] || (t[k] as u32) + 32
                    == (lower@[k] as u32) && 'a' <= lower@[k] <= 'z'),
        decreases n - i,
    {
        let c = s[from + i];
        let l = lower.get_char(i);
        assert(t[i as int] == c);
        let same = c == l || ((c as u32) as u64 + 32 == (l as u32) as u64 && 'a' <= l && l <= 'z');
        if !same {
            return false;
        }
        i = i + 1;
    }
    true
}

/// Whether `s` is text that `f64::from_str` accepts.
pub fn is_float_text_exec(s: &Vec<char>) -> (b: bool)
    ensures
        b == is_float_text(s@),
{
    let mut from: usize = 0;
    if s.len() > 0 && (s[0] == '+' || s[0] == '-') {
        from = 1;
    }
    proof {
        assert(strip_sign(s@) =~= s@.subrange(from as int, s@.len() as int));
        reveal_strlit("inf");
        reveal_strlit("infinity");
        reveal_strlit("nan");
    }
    exec_eq_ignore_case(s, from, "inf") || exec_eq_ignore_case(s, from, "infinity")
        || exec_eq_ignore_case(s, from, "nan") || exec_is_decimal_number(s, from)
}

fn seq_eq_str(s: &Vec<char>, lit: &str) -> (b: bool)
    ensures
        b == (s@ == lit@),
{
    let n = lit.unicode_len();
    if s.len() != n {
        return false;
    }
    let mut i: usize = 0;
    while i < n
        invariant
            n == lit@.len(),
            s@.len() == n,
            i <= n,
            forall|k: int| 0 <= k < i ==> s@[k] == lit@[k],
        decreases n - i,
    {
        if s[i] != lit.get_char(i) {
            return false;
        }
        i = i + 1;
    }
    assert(s@ =~= lit@);
    true
}

/// The placeholder literal for a default value.
fn placeholder_exec(default: &Option<Vec<char>>) -> (r: Vec<char>)
    ensures
        r@ == placeholder(match default {
            Some(d) => Some(d@),
            None => None,
        }),
{
    match default {
        Some(d) => {
            proof {
                reveal_strlit("true");
                reveal_strlit("false");
            }
            if seq_eq_str(d, "true") || seq_eq_str(d, "false") || is_float_text_exec(d) {
                proof {
                    assert(seq!['t', 'r', 'u', 'e'] =~= "true"@);
                    assert(seq!['f', 'a', 'l', 's', 'e'] =~= "false"@);
                }
                d.clone()
            } else {
                proof {
                    assert(seq!['t', 'r', 'u', 'e'] =~= "true"@);
                    assert(seq!['f', 'a', 'l', 's', 'e'] =~= "false"@);
                }
                let mut r: Vec<char> = Vec::new();
                r.push('"');
                let mut i: usize = 0;
                while i < d.len()
                    invariant
                        i <= d@.len(),
                        r@ == seq!['"'] + escape_quotes(d@.subrange(0, i as int)),
                    decreases d@.len() - i,
                {
                    proof {
                        lemma_escape_quotes_push(d@.subrange(0, i as int), d@[i as int]);
                        assert(d@.subrange(0, i + 1) =~= d@.subrange(0, i as int).push(d@[i as int]));
                    }
                    if d[i] == '"' {
                        r.push('\\');
                        r.push('"');
                    } else {
                        r.push(d[i]);
                    }
                    proof {
                        assert(r@ =~= seq!['"'] + escape_quotes(d@.subrange(0, i + 1)));
                    }
                    i = i + 1;
                }
                assert(d@.subrange(0, d@.len() as int) =~= d@);
                r.push('"');
                r
            }
        },
        None => {
            let mut r: Vec<char> = Vec::new();
            r.push('"');
            r.push('"');
            assert(r@ =~= seq!['"', '"']);
            r
        },
    }
}

proof fn lemma_escape_quotes_push(s: Seq<char>, c: char)
    ensures
        escape_quotes(s.push(c)) == escape_quotes(s) + (if c == '"' {
            seq!['\\', '"']
        } else {
            seq![c]
        }),
    decreases s.len(),
{
    if s.len() == 0 {
        assert(s.push(c).drop_first() =~= Seq::<char>::empty());
        assert(escape_quotes(Seq::<char>::empty()) =~= Seq::<char>::empty());
    } else {
        lemma_escape_quotes_push(s.drop_first(), c);
        assert(s.push(c).drop_first() =~= s.drop_first().push(c));
    }
}

/// The first index `>= k` at which `c` holds `ch`.
pub(crate) fn exec_index_of_from(c: &Vec<char>, ch: char, k: usize) -> (r: usize)
    requires
        k <= c@.len(),
    ensures
        r as int == index_of_from(c@, ch, k as int),
        k <= r <= c@.len(),
    decreases c@.len() - k,
{
    if k >= c.len() {
        c.len()
    } else if c[k] == ch {
        k
    } else {
        exec_index_of_from(c, ch, k + 1)
    }
}

/// A default that is a boolean or an unsigned decimal integer replaces its
/// reference as it stands, so the value keeps its type; a default that
/// starts with a quote is written as a string, its quotes escaped; a
/// reference without a default becomes the empty string.
pub proof fn law_placeholder_keeps_literals(d: Seq<char>)
    ensures
        d == "true"@ || d == "false"@ ==> placeholder(Some(d)) == d,
        d.len() > 0 && (forall|i: int| 0 <= i < d.len() ==> '0' <= #[trigger] d[i] <= '9') ==> placeholder(Some(d)) == d,
        d.len() > 0 && d[0] == '"' ==> placeholder(Some(d)) == seq!['"'] + escape_quotes(d) + seq!['"'],
        placeholder(None) == "\"\""@,
{
    reveal_strlit("true");
    reveal_strlit("false");
    reveal_strlit("\"\"");
    assert("true"@ =~= seq!['t', 'r', 'u', 'e']);
    assert("false"@ =~= seq!['f', 'a', 'l', 's', 'e']);
    assert("\"\""@ =~= seq!['"', '"']);
    if d.len() > 0 && (forall|i: int| 0 <= i < d.len() ==> '0' <= #[trigger] d[i] <= '9') {
        assert(strip_sign(d) == d);
        assert(d.subrange(0, d.len() as int) =~= d);
        lemma_digit_run_all(d, 0);
        assert(is_decimal_number(d));
    }
    if d.len() > 0 && d[0] == '"' {
        assert(d != seq!['t', 'r', 'u', 'e']);
        assert(d != seq!['f', 'a', 'l', 's', 'e']);
        assert(strip_sign(d) == d);
        assert(digit_run(d, 0) == 0);
        assert(!eq_ignore_case(d, seq!['i', 'n', 'f']));
        assert(!eq_ignore_case(d, seq!['i', 'n', 'f', 'i', 'n', 'i', 't', 'y']));
        assert(!eq_ignore_case(d, seq!['n', 'a', 'n']));
        assert(!is_float_text(d));
    }
}

/// A text that is a single reference `${name:default}` becomes the
/// placeholder of its default, and the reference is recorded with that
/// name and default.
pub proof fn law_single_reference(name: Seq<char>, d: Seq<char>)
    requires
        !name.contains(':'),
        !name.contains('}'),
        !d.contains('}'),
    ensures
        ({
            let c = seq!['$', '{'] + name + seq![':'] + d + seq!['}'];
            &&& spec_preprocess(c).text == placeholder(Some(d))
            &&& spec_preprocess(c).refs.len() == 1
            &&& spec_preprocess(c).refs[0].name == name
            &&& spec_preprocess(c).refs[0].default == Some(d)
        }),
{
    let c = seq!['$', '{'] + name + seq![':'] + d + seq!['}'];
    let j = c.len() - 1;
    assert(c[0] == '$' && c[1] == '{' && c[j] == '}');
    assert forall|m: int| 2 <= m < j implies c[m] != '}' by {
        if m < 2 + name.len() {
            assert(c[m] == name[m - 2]);
        } else if m > 2 + name.len() {
            assert(c[m] == d[m - 3 - name.len()]);
        }
    }
    lemma_index_of_from_bounds(c, '}', 2);
    assert(index_of_from(c, '}', 2) == j);
    let content = c.subrange(2, j);
    assert(content =~= name + seq![':'] + d);
    assert forall|m: int| 0 <= m < name.len() implies content[m] != ':' by {
        assert(content[m] == name[m]);
    }
    lemma_index_of_from_bounds(content, ':', 0);
    assert(content[name.len() as int] == ':');
    assert(index_of_from(content, ':', 0) == name.len());
    assert(content.subrange(0, name.len() as int) =~= name);
    assert(content.subrange(name.len() as int + 1, content.len() as int) =~= d);
    assert(scan(c, j + 1, initial_state()).text.len() == 0);
    assert(spec_preprocess(c).text =~= placeholder(Some(d)));
}

pub proof fn lemma_index_of_from_bounds(c: Seq<char>, ch: char, k: int)
    requires
        0 <= k <= c.len(),
    ensures
        k <= index_of_from(c, ch, k) <= c.len(),
        index_of_from(c, ch, k) < c.len() ==> c[index_of_from(c, ch, k)] == ch,
        forall|m: int| k <= m < index_of_from(c, ch, k) ==> c[m] != ch,
    decreases c.len() - k,
{
    if k < c.len() {
        lemma_index_of_from_bounds(c, ch, k + 1);
    }
}

pub(crate) fn subvec(c: &Vec<char>, from: usize, to: usize) -> (r: Vec<char>)
    requires
        from <= to <= c@.len(),
    ensures
        r@ == c@.subrange(from as int, to as int),
{
    let mut r: Vec<char> = Vec::new();
    let mut i = from;
    while i < to
        invariant
            from <= i <= to,
            to <= c@.len(),
            r@ == c@.subrange(from as int, i as int),
        decreases to - i,
    {
        r.push(c[i]);
        i = i + 1;
    }
    r
}

/// Appends all of `other` to `v`.
fn push_all(v: &mut Vec<char>, other: &Vec<char>)
    ensures
        final(v)@ == old(v)@ + other@,
{
    let mut k: usize = 0;
    while k < other.len()
        invariant
            k <= other@.len(),
            v@ == old(v)@ + other@.subrange(0, k as int),
        decreases other@.len() - k,
    {
        v.push(other[k]);
        k = k + 1;
    }
    assert(other@.subrange(0, other@.len() as int) =~= other@);
}

/// The reference spelled by `c[i..=j]`.
fn make_reference(c: &Vec<char>, i: usize, j: usize, line: u32, line_start: usize) -> (r: (
    EnvVarReference,
    Option<Vec<char>>,
))
    requires
        line_start <= i,
        i + 2 <= j < c@.len(),
        c@.len() < u32::MAX,
    ensures
        r.0@ == reference_at(c@, i as int, j as int, line as int, line_start as int),
        (match r.1 {
            Some(d) => Some(d@),
            None => None,
        }) == reference_at(c@, i as int, j as int, line as int, line_start as int).default,
{
    let content = subvec(c, i + 2, j);
    let colon = exec_index_of_from(&content, ':', 0);
    proof {
        lemma_index_of_from_bounds(content@, ':', 0);
    }
    let name_chars = subvec(&content, 0, colon);
    let name = string_of(name_chars.as_slice());
    let (default, default_chars) = if colon < content.len() {
        let d = subvec(&content, colon + 1, content.len());
        (Some(string_of(d.as_slice())), Some(d))
    } else {
        (None, None)
    };
    let range = Range {
        start: Position { line, character: (i - line_start) as u32 },
        end: Position { line, character: (j + 1 - line_start) as u32 },
    };
    (EnvVarReference { name, default, range }, default_chars)
}

/// Replaces every unquoted `${NAME}` / `${NAME:default}` by its placeholder
/// literal and collects the references, with their line and character span.
pub fn preprocess_env_vars(content: &str) -> (r: (String, Vec<EnvVarReference>))
    requires
        content@.len() < u32::MAX,
    ensures
        r.0@ == spec_preprocess(content@).text,
        r.1@.map_values(|v: EnvVarReference| v@) == spec_preprocess(content@).refs,
{
    let chars = crate::text::chars_of(content);
    let n = chars.len();
    let mut result: Vec<char> = Vec::new();
    let mut env_vars: Vec<EnvVarReference> = Vec::new();
    let mut line: u32 = 0;
    let mut line_start: usize = 0;
    let mut i: usize = 0;
    let mut in_string = false;
    let mut in_multiline = false;
    let mut escape_next = false;
    let ghost total = spec_preprocess(chars@);
    while i < n
        invariant
            n == chars@.len(),
            n < u32::MAX,
            chars@ == content@,
            total == spec_preprocess(chars@),
            i <= n,
            line <= i,
            line_start <= i,
            result@ + scan(
                chars@,
                i as int,
                LexState { in_string, in_multiline, escape_next, line: line as int, line_start: line_start as int },
            ).text == total.text,
            env_vars@.map_values(|v: EnvVarReference| v@) + scan(
                chars@,
                i as int,
                LexState { in_string, in_multiline, escape_next, line: line as int, line_start: line_start as int },
            ).refs == total.refs,
        decreases n - i,
    {
        let ghost st0 = LexState { in_string, in_multiline, escape_next, line: line as int, line_start: line_start as int };
        let ghost out0 = scan(chars@, i as int, st0);
        if chars[i] == '\n' {
            line = line + 1;
            line_start = i + 1;
        }
        let ghost st = LexState { in_string, in_multiline, escape_next, line: line as int, line_start: line_start as int };
        if escape_next {
            escape_next = false;
            proof {
                assert(out0 == emit(seq![chars@[i as int]], scan(chars@, i + 1, LexState { escape_next: false, ..st })));
            }
            result.push(chars[i]);
            i = i + 1;
            proof {
                assert(result@ =~= result@.drop_last() + seq![chars@[i - 1]]);
            }
            continue;
        }
        if chars[i] == '\\' && (in_string || in_multiline) {
            escape_next = true;
            result.push(chars[i]);
            i = i + 1;
            continue;
        }
        if i + 2 < n && chars[i] == '"' && chars[i + 1] == '"' && chars[i + 2] == '"' {
            in_multiline = !in_multiline;
            result.push('"');
            result.push('"');
            result.push('"');
            i = i + 3;
            continue;
        }
        if chars[i] == '"' && !in_multiline {
            in_string = !in_string;
            result.push(chars[i]);
            i = i + 1;
            continue;
        }
        if !in_string && !in_multiline {
            if i + 1 < n && chars[i] == '$' && chars[i + 1] == '{' {
                let j = exec_index_of_from(&chars, '}', i + 2);
                if j < n {
                    let (reference, default_chars) = make_reference(&chars, i, j, line, line_start);
                    let ph = placeholder_exec(&default_chars);
                    let ghost rv = reference@;
                    env_vars.push(reference);
                    push_all(&mut result, &ph);
                    i = j + 1;
                    continue;
                }
            }
        }
        result.push(chars[i]);
        i = i + 1;
    }
    (string_of(result.as_slice()), env_vars)
}


/// No `$` immediately followed by `{` anywhere in `c`.
pub open spec fn has_no_reference_opener(c: Seq<char>) -> bool {
    forall|i: int| 0 <= i < c.len() - 1 ==> !(#[trigger] c[i] == '$' && c[i + 1] == '{')
}

proof fn lemma_scan_identity(c: Seq<char>, i: int, st: LexState)
    requires
        has_no_reference_opener(c),
        0 <= i <= c.len(),
    ensures
        scan(c, i, st).text == c.subrange(i, c.len() as int),
        scan(c, i, st).refs.len() == 0,
    decreases c.len() - i,
{
    if i < c.len() {
        let st2 = if c[i] == '\n' {
            LexState { line: st.line + 1, line_start: i + 1, ..st }
        } else {
            st
        };
        if st2.escape_next {
            lemma_scan_identity(c, i + 1, LexState { escape_next: false, ..st2 });
        } else if c[i] == '\\' && (st2.in_string || st2.in_multiline) {
            lemma_scan_identity(c, i + 1, LexState { escape_next: true, ..st2 });
        } else if i + 2 < c.len() && c[i] == '"' && c[i + 1] == '"' && c[i + 2] == '"' {
            lemma_scan_identity(c, i + 3, LexState { in_multiline: !st2.in_multiline, ..st2 });
            assert(c.subrange(i, c.len() as int) =~= seq!['"', '"', '"'] + c.subrange(
                i + 3,
                c.len() as int,
            ));
        } else if c[i] == '"' && !st2.in_multiline {
            lemma_scan_identity(c, i + 1, LexState { in_string: !st2.in_string, ..st2 });
        } else {
            if i + 1 < c.len() {
                assert(!(c[i] == '$' && c[i + 1] == '{'));
            }
            lemma_scan_identity(c, i + 1, st2);
        }
        assert(c.subrange(i, c.len() as int) =~= seq![c[i]] + c.subrange(i + 1, c.len() as int));
    } else {
        assert(c.subrange(i, c.len() as int) =~= Seq::<char>::empty());
    }
}

/// Configuration text in which no `${` occurs is passed to the TOML parser
/// unchanged, and no reference is reported for it.
pub proof fn law_text_without_references_is_unchanged(c: Seq<char>)
    requires
        has_no_reference_opener(c),
    ensures
        spec_preprocess(c).text == c,
        spec_preprocess(c).refs.len() == 0,
{
    lemma_scan_identity(c, 0, initial_state());
    assert(c.subrange(0, c.len() as int) =~= c);
}

proof fn lemma_scan_ranges(c: Seq<char>, i: int, st: LexState)
    requires
        0 <= st.line_start <= i <= c.len(),
        c.len() < u32::MAX,
        0 <= st.line <= i,
    ensures
        forall|k: int|
            0 <= k < scan(c, i, st).refs.len() ==> {
                let r = #[trigger] scan(c, i, st).refs[k];
                &&& r.range.start.line == r.range.end.line
                &&& r.range.start.character + 3 <= r.range.end.character
                &&& !r.name.contains(':')
            },
    decreases c.len() - i,
{
    if i < c.len() {
        let st2 = if c[i] == '\n' {
            LexState { line: st.line + 1, line_start: i + 1, ..st }
        } else {
            st
        };
        if st2.escape_next {
            lemma_scan_ranges(c, i + 1, LexState { escape_next: false, ..st2 });
        } else if c[i] == '\\' && (st2.in_string || st2.in_multiline) {
            lemma_scan_ranges(c, i + 1, LexState { escape_next: true, ..st2 });
        } else if i + 2 < c.len() && c[i] == '"' && c[i + 1] == '"' && c[i + 2] == '"' {
            lemma_scan_ranges(c, i + 3, LexState { in_multiline: !st2.in_multiline, ..st2 });
        } else if c[i] == '"' && !st2.in_multiline {
            lemma_scan_ranges(c, i + 1, LexState { in_string: !st2.in_string, ..st2 });
        } else if !st2.in_string && !st2.in_multiline && i + 1 < c.len() && c[i] == '$' && c[i
            + 1] == '{' && index_of_from(c, '}', i + 2) < c.len() {
            let j = index_of_from(c, '}', i + 2);
            lemma_index_of_from_bounds(c, '}', i + 2);
            lemma_scan_ranges(c, j + 1, st2);
            let r = reference_at(c, i, j, st2.line, st2.line_start);
            let content = c.subrange(i + 2, j);
            lemma_index_of_from_bounds(content, ':', 0);
            assert(!r.name.contains(':')) by {
                if r.name.contains(':') {
                    let m = choose|m: int| 0 <= m < r.name.len() && r.name[m] == ':';
                    assert(content[m] == ':');
                }
            }
            let rest = scan(c, j + 1, st2);
            assert(scan(c, i, st).refs == seq![r] + rest.refs);
            assert forall|k: int| 0 <= k < scan(c, i, st).refs.len() implies {
                let r2 = #[trigger] scan(c, i, st).refs[k];
                &&& r2.range.start.line == r2.range.end.line
                &&& r2.range.start.character + 3 <= r2.range.end.character
                &&& !r2.name.contains(':')
            } by {
                if k > 0 {
                    assert(scan(c, i, st).refs[k] == rest.refs[k - 1]);
                }
            }
        } else {
            lemma_scan_ranges(c, i + 1, st2);
        }
    }
}

/// Every reported reference lies on one line, spans at least the three
/// characters of `${}`, and has a name without `:`.
pub proof fn law_reference_ranges(c: Seq<char>)
    requires
        c.len() < u32::MAX,
    ensures
        forall|k: int|
            0 <= k < spec_preprocess(c).refs.len() ==> {
                let r = #[trigger] spec_preprocess(c).refs[k];
                &&& r.range.start.line == r.range.end.line
                &&& r.range.start.character + 3 <= r.range.end.character
                &&& !r.name.contains(':')
            },
{
    lemma_scan_ranges(c, 0, initial_state());
}

} // verus!
