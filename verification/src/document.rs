//! Editing the text of an open document: a protocol position, counted in
//! lines and UTF-16 code units, is placed in the text, and a change replaces
//! the text between two positions, or the whole text.

use vstd::prelude::*;
use crate::lsp::{Position, Range};
use crate::text::{chars_of, string_of};

verus! {

/// How many UTF-16 code units encode `c`.
pub open spec fn utf16_units(c: char) -> nat {
    if (c as u32) >= 0x10000 { 2 } else { 1 }
}

/// The place in `t`, scanning from index `i`, of the position `line` lines
/// further down at `character` code units, `units` of them already passed
/// on the current line. A position past the end of its line stands before
/// the line's `'\n'`; a line past the last stands at the end of the text.
pub open spec fn index_from(t: Seq<char>, i: int, line: nat, character: nat, units: nat) -> int
    decreases t.len() - i,
{
    if i < 0 || i >= t.len() {
        t.len() as int
    } else if line > 0 {
        index_from(t, i + 1, if t[i] == '\n' { (line - 1) as nat } else { line }, character, 0)
    } else if units >= character || t[i] == '\n' {
        i
    } else {
        index_from(t, i + 1, 0, character, units + utf16_units(t[i]))
    }
}

/// The index in `t` of the character at which position `p` stands.
pub open spec fn position_index(t: Seq<char>, p: Position) -> int {
    index_from(t, 0, p.line as nat, p.character as nat, 0)
}

/// The text after a change: the whole of `new` where the change has no
/// range, else `t` with the part between the range's start and its end (an
/// end before the start counting as the start) replaced by `new`.
pub open spec fn changed_text(t: Seq<char>, range: Option<Range>, new: Seq<char>) -> Seq<char> {
    match range {
        None => new,
        Some(r) => {
            let s = position_index(t, r.start);
            let e = position_index(t, r.end);
            t.take(s) + new + t.skip(if e < s { s } else { e })
        },
    }
}

proof fn lemma_index_from_bounds(t: Seq<char>, i: int, line: nat, character: nat, units: nat)
    requires
        0 <= i,
    ensures
        0 <= index_from(t, i, line, character, units) <= t.len(),
    decreases t.len() - i,
{
    if i < t.len() {
        if line > 0 {
            lemma_index_from_bounds(t, i + 1, if t[i] == '\n' { (line - 1) as nat } else { line }, character, 0);
        } else if !(units >= character || t[i] == '\n') {
            lemma_index_from_bounds(t, i + 1, 0, character, units + utf16_units(t[i]));
        }
    }
}

/// The index of the character at which a position stands.
pub fn char_index(t: &Vec<char>, p: Position) -> (r: usize)
    ensures
        r == position_index(t@, p),
{
    let mut i: usize = 0;
    let mut line: u32 = p.line;
    let mut units: u64 = 0;
    while i < t.len()
        invariant
            i <= t@.len(),
            units <= p.character + 1,
            line > 0 ==> units == 0,
            position_index(t@, p) == index_from(t@, i as int, line as nat, p.character as nat, units as nat),
        decreases t@.len() - i,
    {
        let c = t[i];
        if line > 0 {
            if c == '\n' {
                line = line - 1;
            }
            i = i + 1;
        } else if units >= p.character as u64 || c == '\n' {
            return i;
        } else {
            let w: u64 = if (c as u32) >= 0x10000 { 2 } else { 1 };
            units = units + w;
            i = i + 1;
        }
    }
    t.len()
}

/// Applies a change to a document's text: without a range the new text
/// replaces all of it; with one, the part between the range's positions.
pub fn apply_change(text: &mut String, range: Option<Range>, new_text: &str)
    ensures
        final(text)@ == changed_text(old(text)@, range, new_text@),
{
    match range {
        None => {
            *text = string_of(chars_of(new_text).as_slice());
        },
        Some(r) => {
            let cs = chars_of(text.as_str());
            let s = char_index(&cs, r.start);
            let e0 = char_index(&cs, r.end);
            let e = if e0 < s { s } else { e0 };
            proof {
                lemma_index_from_bounds(cs@, 0, r.start.line as nat, r.start.character as nat, 0);
                lemma_index_from_bounds(cs@, 0, r.end.line as nat, r.end.character as nat, 0);
            }
            let added = chars_of(new_text);
            let mut out: Vec<char> = Vec::new();
            let mut k: usize = 0;
            while k < s
                invariant
                    s <= cs@.len(),
                    k <= s,
                    out@ == cs@.take(k as int),
                decreases s - k,
            {
                out.push(cs[k]);
                k = k + 1;
            }
            let mut k: usize = 0;
            while k < added.len()
                invariant
                    k <= added@.len(),
                    out@ == cs@.take(s as int) + added@.take(k as int),
                decreases added@.len() - k,
            {
                out.push(added[k]);
                proof {
                    assert(added@.take(k + 1) =~= added@.take(k as int).push(added@[k as int]));
                }
                k = k + 1;
            }
            let mut k: usize = e;
            while k < cs.len()
                invariant
                    e <= k <= cs@.len(),
                    out@ == cs@.take(s as int) + added@ + cs@.subrange(e as int, k as int),
                decreases cs@.len() - k,
            {
                out.push(cs[k]);
                proof {
                    assert(cs@.subrange(e as int, k + 1) =~= cs@.subrange(e as int, k as int).push(cs@[k as int]));
                }
                k = k + 1;
            }
            proof {
                assert(added@.take(added@.len() as int) =~= added@);
                assert(cs@.subrange(e as int, cs@.len() as int) =~= cs@.skip(e as int));
            }
            *text = string_of(out.as_slice());
        },
    }
}

} // verus!
