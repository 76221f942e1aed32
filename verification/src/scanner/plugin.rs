//! The plugin scanner: lists the plugins a project registers with
//! `.add_plugin(..)` in its `src/main.rs`, or in `src/lib.rs` when it has
//! no `main.rs`.

use vstd::prelude::*;
use std::io::Error as IoError;
use crate::lsp::{LocationResponse, PositionResponse, RangeResponse};
use crate::text::{occurs_at, contains_seq, white_space, lines_of, lines_from, utf8_len, string_of, find_str, split_lines};

verus! {

/// A plugin as the plugins request reports it.
#[derive(Debug)]
pub struct PluginInfoResponse {
    pub name: String,
    pub ty_name: String,
    pub config_prefix: Option<String>,
    pub location: LocationResponse,
}

/// The parameters of the plugins request.
#[derive(Debug)]
pub struct PluginsRequest {
    pub app_path: String,
}

/// The answer to the plugins request.
#[derive(Debug)]
pub struct PluginsResponse {
    pub plugins: Vec<PluginInfoResponse>,
}

/// Why a scan failed.
#[derive(Debug)]
pub enum ScanError {
    FileRead(IoError),
    InvalidProject(String),
    NoPlugins,
}

/// A source file: its URI and text.
#[derive(Debug)]
pub struct SourceFile {
    pub uri: String,
    pub content: String,
}

pub open spec fn add_plugin_call() -> Seq<char> {
    ".add_plugin("@
}

/// The first position of `needle` in `s`.
pub open spec fn first_occurrence(s: Seq<char>, needle: Seq<char>) -> int {
    choose|i: int| occurs_at(s, needle, i) && forall|j: int| 0 <= j < i ==> !occurs_at(s, needle, j)
}

/// The position of the first character at or after `k` that is not
/// whitespace.
pub open spec fn skip_whitespace(s: Seq<char>, k: int) -> int
    decreases s.len() - k,
{
    if 0 <= k < s.len() && white_space(s[k]) {
        skip_whitespace(s, k + 1)
    } else {
        k
    }
}

/// Whether `c` ends a plugin name: a parenthesis, a comma or whitespace.
pub open spec fn ends_name(c: char) -> bool {
    c == '(' || c == ')' || c == ',' || white_space(c)
}

/// The position of the first character at or after `k` that ends a name,
/// or the length.
pub open spec fn name_end(s: Seq<char>, k: int) -> int
    decreases s.len() - k,
{
    if 0 <= k < s.len() && !ends_name(s[k]) {
        name_end(s, k + 1)
    } else {
        k
    }
}

/// The plugin a line registers: after the first `.add_plugin(`, leading
/// whitespace skipped, up to the first parenthesis, comma or whitespace;
/// nothing when the line has no call or the name is empty.
pub open spec fn spec_plugin_name(line: Seq<char>) -> Option<Seq<char>> {
    if !contains_seq(line, add_plugin_call()) {
        None
    } else {
        let after = line.subrange(first_occurrence(line, add_plugin_call()) + add_plugin_call().len(), line.len() as int);
        let start = skip_whitespace(after, 0);
        let end = name_end(after, start);
        if end > start {
            Some(after.subrange(start, end))
        } else {
            None
        }
    }
}

/// The content of a plugin entry.
pub struct PluginV {
    pub name: Seq<char>,
    pub ty_name: Seq<char>,
    pub config_prefix: Option<Seq<char>>,
    pub uri: Seq<char>,
    pub range: RangeResponse,
}

pub open spec fn plugin_view(p: PluginInfoResponse) -> PluginV {
    PluginV {
        name: p.name@,
        ty_name: p.ty_name@,
        config_prefix: match p.config_prefix {
            Some(c) => Some(c@),
            None => None,
        },
        uri: p.location.uri@,
        range: p.location.range,
    }
}

pub open spec fn plugins_view(ps: Seq<PluginInfoResponse>) -> Seq<PluginV> {
    Seq::new(ps.len(), |i: int| plugin_view(ps[i]))
}

/// The plugins registered in the first `n` lines, in order: each spans its
/// whole line, from character 0 to the line's length in bytes.
pub open spec fn plugins_in_lines(uri: Seq<char>, lines: Seq<Seq<char>>, n: int) -> Seq<PluginV>
    decreases n,
{
    if n <= 0 {
        seq![]
    } else {
        let rest = plugins_in_lines(uri, lines, n - 1);
        let line = lines[n - 1];
        match spec_plugin_name(line) {
            Some(name) => rest.push(
                PluginV {
                    name,
                    ty_name: name,
                    config_prefix: None,
                    uri,
                    range: RangeResponse {
                        start: PositionResponse { line: (n - 1) as u32, character: 0 },
                        end: PositionResponse { line: (n - 1) as u32, character: utf8_len(line) as u32 },
                    },
                },
            ),
            None => rest,
        }
    }
}

/// The plugins a source text registers.
pub open spec fn plugins_in_source(uri: Seq<char>, content: Seq<char>) -> Seq<PluginV> {
    plugins_in_lines(uri, lines_of(content), lines_of(content).len() as int)
}

fn skip_ws_exec(s: &Vec<char>, k: usize) -> (r: usize)
    requires
        k <= s@.len(),
    ensures
        r as int == skip_whitespace(s@, k as int),
        k <= r <= s@.len(),
    decreases s@.len() - k,
{
    if k < s.len() && crate::text::is_whitespace(s[k]) {
        skip_ws_exec(s, k + 1)
    } else {
        k
    }
}

fn name_end_exec(s: &Vec<char>, k: usize) -> (r: usize)
    requires
        k <= s@.len(),
    ensures
        r as int == name_end(s@, k as int),
        k <= r <= s@.len(),
    decreases s@.len() - k,
{
    if k < s.len() && !(s[k] == '(' || s[k] == ')' || s[k] == ',' || crate::text::is_whitespace(s[k])) {
        name_end_exec(s, k + 1)
    } else {
        k
    }
}

fn utf8_len_exec(s: &Vec<char>) -> (r: u64)
    requires
        s@.len() < 0x1000_0000_0000_0000,
    ensures
        r as nat == utf8_len(s@),
{
    let mut total: u64 = 0;
    let mut i: usize = 0;
    while i < s.len()
        invariant
            i <= s@.len(),
            s@.len() < 0x1000_0000_0000_0000,
            total as nat == utf8_len(s@.subrange(0, i as int)),
            total <= 4 * i,
        decreases s@.len() - i,
    {
        proof {
            assert(s@.subrange(0, i + 1).drop_last() =~= s@.subrange(0, i as int));
        }
        let w = crate::text::char_utf8_width(s[i]);
        total = total + w as u64;
        i = i + 1;
    }
    assert(s@.subrange(0, s@.len() as int) =~= s@);
    total
}

/// Lists the plugins a project registers.
pub struct PluginScanner {}

impl PluginScanner {
    pub fn new() -> (r: PluginScanner) {
        PluginScanner {}
    }

    /// The plugin a line registers with `.add_plugin(..)`, if any.
    pub fn extract_plugin_name(&self, line: &str) -> (r: Option<String>)
        ensures
            match r {
                Some(n) => spec_plugin_name(line@) == Some(n@),
                None => spec_plugin_name(line@) is None,
            },
    {
        let start = match find_str(line, ".add_plugin(") {
            Some(s) => s,
            None => return None,
        };
        let c = crate::text::chars_of(line);
        let m = ".add_plugin(".unicode_len();
        proof {
            let f = first_occurrence(line@, add_plugin_call());
            assert(occurs_at(line@, add_plugin_call(), start as int));
            assert(occurs_at(line@, add_plugin_call(), f) && forall|j: int| 0 <= j < f ==> !occurs_at(line@, add_plugin_call(), j));
            assert(f == start) by {
                if f < start {
                } else if f > start {
                }
            }
        }
        let n = c.len();
        assert(m == add_plugin_call().len());
        assert(start + m <= n);
        let after = crate::env_vars::subvec(&c, start + m, n);
        let s = skip_ws_exec(&after, 0);
        let e = name_end_exec(&after, s);
        if e > s {
            let name = crate::env_vars::subvec(&after, s, e);
            Some(string_of(name.as_slice()))
        } else {
            None
        }
    }

    /// The entry for line `n` (counting from zero) when it registers a
    /// plugin.
    fn plugin_of_line(&self, uri: &String, line_chars: &Vec<char>, n: usize) -> (r: Option<PluginInfoResponse>)
        requires
            line_chars@.len() < 0x1000_0000_0000_0000,
        ensures
            match r {
                Some(p) => spec_plugin_name(line_chars@) matches Some(name) && plugin_view(p) == (PluginV {
                    name,
                    ty_name: name,
                    config_prefix: None,
                    uri: uri@,
                    range: RangeResponse {
                        start: PositionResponse { line: n as u32, character: 0 },
                        end: PositionResponse { line: n as u32, character: utf8_len(line_chars@) as u32 },
                    },
                }),
                None => spec_plugin_name(line_chars@) is None,
            },
    {
        let line = string_of(line_chars.as_slice());
        match self.extract_plugin_name(line.as_str()) {
            Some(name) => {
                let len = utf8_len_exec(line_chars);
                #[verifier::truncate]
                let line_no = n as u32;
                #[verifier::truncate]
                let end_char = len as u32;
                Some(
                    PluginInfoResponse {
                        name: name.clone(),
                        ty_name: name,
                        config_prefix: None,
                        location: LocationResponse {
                            uri: uri.clone(),
                            range: RangeResponse {
                                start: PositionResponse { line: line_no, character: 0 },
                                end: PositionResponse { line: line_no, character: end_char },
                            },
                        },
                    },
                )
            },
            None => None,
        }
    }

    /// The plugins a source file registers, one per line with a call.
    pub fn scan_file(&self, file: &SourceFile) -> (r: Vec<PluginInfoResponse>)
        requires
            file.content@.len() < 0x1000_0000_0000_0000,
        ensures
            plugins_view(r@) == plugins_in_source(file.uri@, file.content@),
    {
        let lines = split_lines(file.content.as_str());
        let ghost ls = lines_of(file.content@);
        let mut out: Vec<PluginInfoResponse> = Vec::new();
        let mut i: usize = 0;
        proof {
            lemma_lines_shorter(file.content@, 0);
        }
        while i < lines.len()
            invariant
                lines@.len() == ls.len(),
                forall|k: int| 0 <= k < lines@.len() ==> #[trigger] lines@[k]@ == ls[k],
                forall|k: int| 0 <= k < ls.len() ==> #[trigger] ls[k].len() <= file.content@.len(),
                file.content@.len() < 0x1000_0000_0000_0000,
                i <= lines@.len(),
                plugins_view(out@) == plugins_in_lines(file.uri@, ls, i as int),
            decreases lines@.len() - i,
        {
            assert(lines@[i as int]@ == ls[i as int]);
            let ghost before = out@;
            match self.plugin_of_line(&file.uri, &lines[i], i) {
                Some(entry) => {
                    out.push(entry);
                    proof {
                        assert(plugins_view(out@) =~= plugins_view(before).push(plugin_view(entry)));
                    }
                },
                None => {},
            }
            i = i + 1;
        }
        out
    }

    /// The plugins of a project: those of `src/main.rs`, or of `src/lib.rs`
    /// when there is no `main.rs`; a project with neither is refused.
    pub fn scan_plugins(&self, main_rs: Option<SourceFile>, lib_rs: Option<SourceFile>) -> (r: Result<Vec<PluginInfoResponse>, ScanError>)
        requires
            main_rs matches Some(f) ==> f.content@.len() < 0x1000_0000_0000_0000,
            lib_rs matches Some(f) ==> f.content@.len() < 0x1000_0000_0000_0000,
        ensures
            match main_rs {
                Some(f) => r matches Ok(ps) && plugins_view(ps@) == plugins_in_source(f.uri@, f.content@),
                None => match lib_rs {
                    Some(f) => r matches Ok(ps) && plugins_view(ps@) == plugins_in_source(f.uri@, f.content@),
                    None => r matches Err(ScanError::InvalidProject(m)) && m@ == "Neither main.rs nor lib.rs found"@,
                },
            },
    {
        match main_rs {
            Some(f) => Ok(self.scan_file(&f)),
            None => match lib_rs {
                Some(f) => Ok(self.scan_file(&f)),
                None => Err(ScanError::InvalidProject(String::from_str("Neither main.rs nor lib.rs found"))),
            },
        }
    }
}

proof fn lemma_lines_shorter(s: Seq<char>, i: int)
    requires
        0 <= i,
    ensures
        forall|k: int| 0 <= k < lines_from(s, i).len() ==> #[trigger] lines_from(s, i)[k].len() <= s.len(),
    decreases s.len() - i,
{
    if i < s.len() {
        crate::env_vars::lemma_index_of_from_bounds(s, '\n', i);
        let j = crate::env_vars::index_of_from(s, '\n', i);
        if j < s.len() {
            lemma_lines_shorter(s, j + 1);
            assert forall|k: int| 0 <= k < lines_from(s, i).len() implies #[trigger] lines_from(s, i)[k].len() <= s.len() by {
                if k > 0 {
                    assert(lines_from(s, i)[k] == lines_from(s, j + 1)[k - 1]);
                }
            }
        }
    }
}

/// Whether a line registers a plugin.
pub open spec fn registers_plugin(line: Seq<char>) -> bool {
    spec_plugin_name(line) is Some
}

#[verifier::rlimit(40)]
proof fn lemma_plugin_count(uri: Seq<char>, lines: Seq<Seq<char>>, n: int)
    requires
        0 <= n <= lines.len(),
    ensures
        plugins_in_lines(uri, lines, n).len() == lines.take(n).filter(|l: Seq<char>| registers_plugin(l)).len(),
    decreases n,
{
    reveal(Seq::filter);
    if n > 0 {
        lemma_plugin_count(uri, lines, n - 1);
        assert(lines.take(n).drop_last() =~= lines.take(n - 1));
        assert(lines.take(n).last() == lines[n - 1]);
    } else {
        assert(lines.take(0) =~= Seq::<Seq<char>>::empty());
    }
}

#[verifier::rlimit(40)]
proof fn lemma_plugin_each_line(uri: Seq<char>, lines: Seq<Seq<char>>, n: int)
    requires
        0 <= n <= lines.len(),
    ensures
        forall|k: int| 0 <= k < n && #[trigger] registers_plugin(lines[k]) ==> exists|j: int|
            0 <= j < plugins_in_lines(uri, lines, n).len()
            && Some(plugins_in_lines(uri, lines, n)[j].name) == spec_plugin_name(lines[k])
            && plugins_in_lines(uri, lines, n)[j].range.start.line == k as u32,
    decreases n,
{
    if n > 0 {
        lemma_plugin_each_line(uri, lines, n - 1);
        let rest = plugins_in_lines(uri, lines, n - 1);
        let ps = plugins_in_lines(uri, lines, n);
        assert forall|k: int| 0 <= k < n && #[trigger] registers_plugin(lines[k]) implies exists|j: int| 0 <= j < ps.len()
            && Some(ps[j].name) == spec_plugin_name(lines[k]) && ps[j].range.start.line == k as u32 by {
            if k < n - 1 {
                let j = choose|j: int| 0 <= j < rest.len()
                    && Some(rest[j].name) == spec_plugin_name(lines[k]) && rest[j].range.start.line == k as u32;
                assert(ps[j] == rest[j]);
            } else {
                assert(ps[rest.len() as int].name == spec_plugin_name(lines[k])->Some_0);
            }
        }
    }
}

proof fn lemma_plugin_from_line(uri: Seq<char>, lines: Seq<Seq<char>>, n: int)
    requires
        0 <= n <= lines.len(),
    ensures
        forall|j: int| 0 <= j < plugins_in_lines(uri, lines, n).len() ==> exists|k: int| 0 <= k < n
            && spec_plugin_name(lines[k]) == Some(#[trigger] plugins_in_lines(uri, lines, n)[j].name)
            && plugins_in_lines(uri, lines, n)[j].range.start.line == k as u32,
    decreases n,
{
    if n > 0 {
        lemma_plugin_from_line(uri, lines, n - 1);
        let rest = plugins_in_lines(uri, lines, n - 1);
        let ps = plugins_in_lines(uri, lines, n);
        assert forall|j: int| 0 <= j < ps.len() implies exists|k: int| 0 <= k < n
            && spec_plugin_name(lines[k]) == Some(#[trigger] ps[j].name) && ps[j].range.start.line == k as u32 by {
            if j < rest.len() {
                assert(ps[j] == rest[j]);
                let k = choose|k: int| 0 <= k < n - 1
                    && spec_plugin_name(lines[k]) == Some(rest[j].name) && rest[j].range.start.line == k as u32;
            } else {
                assert(spec_plugin_name(lines[n - 1]) == Some(ps[j].name));
            }
        }
    }
}

/// Every line that registers a plugin gives exactly one entry, on that line
/// and named as the line names it; no other line gives one, so there are as
/// many entries as such lines.
pub proof fn law_one_plugin_per_line(uri: Seq<char>, lines: Seq<Seq<char>>, n: int)
    requires
        0 <= n <= lines.len(),
    ensures
        ({
            let ps = plugins_in_lines(uri, lines, n);
            &&& ps.len() == lines.take(n).filter(|l: Seq<char>| registers_plugin(l)).len()
            &&& forall|k: int| 0 <= k < n && #[trigger] registers_plugin(lines[k]) ==> exists|j: int| 0 <= j < ps.len()
                && Some(ps[j].name) == spec_plugin_name(lines[k]) && ps[j].range.start.line == k as u32
            &&& forall|j: int| 0 <= j < ps.len() ==> exists|k: int| 0 <= k < n
                && spec_plugin_name(lines[k]) == Some(#[trigger] ps[j].name) && ps[j].range.start.line == k as u32
        }),
{
    lemma_plugin_count(uri, lines, n);
    lemma_plugin_each_line(uri, lines, n);
    lemma_plugin_from_line(uri, lines, n);
}

proof fn lemma_name_end_run(s: Seq<char>, k: int, e: int)
    requires
        0 <= k <= e < s.len(),
        forall|i: int| k <= i < e ==> !ends_name(#[trigger] s[i]),
        ends_name(s[e]),
    ensures
        name_end(s, k) == e,
    decreases e - k,
{
    if k < e {
        lemma_name_end_run(s, k + 1, e);
    }
}

/// A line that calls `.add_plugin(` once, with a plain name directly
/// inside, registers the plugin of that name, whatever comes before the
/// call (so long as it holds no `.`) or after it.
pub proof fn law_plugin_name_of_call(before: Seq<char>, name: Seq<char>, after: Seq<char>)
    requires
        !before.contains('.'),
        name.len() > 0,
        forall|i: int| 0 <= i < name.len() ==> !ends_name(#[trigger] name[i]),
    ensures
        spec_plugin_name(before + add_plugin_call() + name + seq![')'] + after) == Some(name),
{
    let call = add_plugin_call();
    reveal_strlit(".add_plugin(");
    let line = before + call + name + seq![')'] + after;
    let p = before.len() as int;
    assert(line.subrange(p, p + call.len()) =~= call);
    assert(occurs_at(line, call, p));
    assert forall|j: int| 0 <= j < p implies !occurs_at(line, call, j) by {
        if occurs_at(line, call, j) {
            assert(line.subrange(j, j + call.len())[0] == call[0]);
            assert(line[j] == '.');
            assert(line[j] == before[j]);
        }
    }
    let f = first_occurrence(line, call);
    assert(occurs_at(line, call, f) && forall|j: int| 0 <= j < f ==> !occurs_at(line, call, j));
    assert(f == p) by {
        if f < p {
        } else if f > p {
            assert(!occurs_at(line, call, p));
        }
    }
    let rest = line.subrange(f + call.len(), line.len() as int);
    assert(rest =~= name + seq![')'] + after);
    assert(rest[0] == name[0]);
    assert(skip_whitespace(rest, 0) == 0);
    assert forall|i: int| 0 <= i < name.len() implies !ends_name(#[trigger] rest[i]) by {
        assert(rest[i] == name[i]);
    }
    assert(rest[name.len() as int] == ')');
    lemma_name_end_run(rest, 0, name.len() as int);
    assert(rest.subrange(0, name.len() as int) =~= name);
}

impl Default for PluginScanner {
    fn default() -> (r: PluginScanner) {
        PluginScanner::new()
    }
}

} // verus!
