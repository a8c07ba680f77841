//! Compiler-native telemetry for `nim c`/`nim cpp` builds, read from Nim's
//! human-oriented hint output on stderr: which line is a processed module,
//! the link step, the success summary, known noise, or unrecognized; the
//! summary's line count; and the peak-memory field's number and unit.
//! Turning the seconds and the fractional memory figure into numbers is
//! floating-point work done by the caller.

use vstd::prelude::*;

use crate::text::{
    after_prefix, before_suffix, chars_of, lines_of, split_lines, contains_str, find_chars, find_spec, last_index, parse_u64,
    parse_u64_spec, rfind_char, strip_prefix, strip_suffix, substring, trim_spec, trimmed,
};

verus! {

/// What one stderr line of a Nim build is.
#[derive(Debug, Clone, PartialEq, Eq)]
pub enum HintLine {
    /// Empty after trimming.
    Blank,
    /// `CC: <module>`: a module that reached C code generation.
    Module(String),
    /// The link step ran.
    Link,
    /// The `[SuccessX]` summary line (trimmed).
    Summary(String),
    /// Config-file notices, the build-flags half-line, progress dots.
    Known,
    Unrecognized,
}

pub enum HintLineView {
    Blank,
    Module(Seq<char>),
    Link,
    Summary(Seq<char>),
    Known,
    Unrecognized,
}

impl View for HintLine {
    type V = HintLineView;

    open spec fn view(&self) -> HintLineView {
        match self {
            HintLine::Blank => HintLineView::Blank,
            HintLine::Module(m) => HintLineView::Module(m@),
            HintLine::Link => HintLineView::Link,
            HintLine::Summary(s) => HintLineView::Summary(s@),
            HintLine::Known => HintLineView::Known,
            HintLine::Unrecognized => HintLineView::Unrecognized,
        }
    }
}

pub open spec fn all_dots(s: Seq<char>) -> bool {
    forall|i: int| 0 <= i < s.len() ==> #[trigger] s[i] == '.'
}

/// The kind of a line, checked in this order on the trimmed line.
pub open spec fn classify(line: Seq<char>) -> HintLineView {
    let t = trim_spec(line);
    if t.len() == 0 {
        HintLineView::Blank
    } else if after_prefix(t, "CC: "@) is Some {
        HintLineView::Module(after_prefix(t, "CC: "@)->0)
    } else if find_spec(t, "[Link]"@) is Some {
        HintLineView::Link
    } else if before_suffix(t, "[SuccessX]"@) is Some {
        HintLineView::Summary(t)
    } else if after_prefix(t, "Hint: used config file"@) is Some || after_prefix(t, "Hint: mm:"@) is Some
        || all_dots(t) {
        HintLineView::Known
    } else {
        HintLineView::Unrecognized
    }
}

/// Classifies one stderr line.
pub fn classify_hint_line(line: &str) -> (r: HintLine)
    ensures
        r@ == classify(line@),
{
    let t = trimmed(line);
    let cs = chars_of(t.as_str());
    if cs.len() == 0 {
        return HintLine::Blank;
    }
    match strip_prefix(t.as_str(), "CC: ") {
        Some(m) => return HintLine::Module(m),
        None => {},
    }
    if contains_str(t.as_str(), "[Link]") {
        return HintLine::Link;
    }
    if strip_suffix(t.as_str(), "[SuccessX]").is_some() {
        return HintLine::Summary(t);
    }
    if strip_prefix(t.as_str(), "Hint: used config file").is_some() || strip_prefix(t.as_str(), "Hint: mm:").is_some() {
        return HintLine::Known;
    }
    if is_all_dots(&cs) {
        HintLine::Known
    } else {
        HintLine::Unrecognized
    }
}

fn is_all_dots(cs: &Vec<char>) -> (r: bool)
    ensures
        r == all_dots(cs@),
{
    let mut i: usize = 0;
    while i < cs.len()
        invariant
            i <= cs@.len(),
            forall|j: int| 0 <= j < i ==> #[trigger] cs@[j] == '.',
        decreases cs@.len() - i,
    {
        if cs[i] != '.' {
            return false;
        }
        i = i + 1;
    }
    true
}

/// The part of `s` before the first occurrence of `pat` (all of `s` when
/// there is none), as `str::split(pat).next()` gives it.
pub open spec fn before_first(s: Seq<char>, pat: Seq<char>) -> Seq<char> {
    match find_spec(s, pat) {
        Some(i) => s.take(i),
        None => s,
    }
}

/// The line count of a summary line: its text before ` lines;`, trimmed,
/// read as a `u64`.
pub open spec fn summary_lines(line: Seq<char>) -> Option<u64> {
    parse_u64_spec(trim_spec(before_first(line, " lines;"@)))
}

/// The line count a `[SuccessX]` summary line reports, if it reads as one.
pub fn lines_compiled(line: &str) -> (r: Option<u64>)
    ensures
        r == summary_lines(line@),
{
    let cs = chars_of(line);
    let pat = chars_of(" lines;");
    let head = match find_chars(&cs, &pat) {
        Some(i) => substring(&cs, 0, i),
        None => substring(&cs, 0, cs.len()),
    };
    proof {
        assert(cs@.subrange(0, cs@.len() as int) =~= cs@);
        if find_spec(cs@, pat@) is Some {
            assert(head@ =~= cs@.take(find_spec(cs@, pat@)->0));
        }
    }
    let t = trimmed(head.as_str());
    parse_u64(t.as_str())
}

/// The peak-memory token of a line: the text between the last `;` before
/// ` peakmem` (or the line's start) and ` peakmem`, trimmed.
pub open spec fn peak_token(line: Seq<char>) -> Option<Seq<char>> {
    match find_spec(line, " peakmem"@) {
        None => None,
        Some(end) => {
            let before = line.take(end);
            let start = match last_index(before, ';') {
                Some(i) => i + 1,
                None => 0,
            };
            Some(trim_spec(before.subrange(start, before.len() as int)))
        },
    }
}

/// The number text and byte multiplier of a peak-memory token: `GiB`,
/// `MiB` and `KiB` are binary multiples; a bare `B` is bytes.
pub open spec fn peak_unit(token: Seq<char>) -> Option<(Seq<char>, u64)> {
    if before_suffix(token, "GiB"@) is Some {
        Some((trim_spec(before_suffix(token, "GiB"@)->0), 1073741824u64))
    } else if before_suffix(token, "MiB"@) is Some {
        Some((trim_spec(before_suffix(token, "MiB"@)->0), 1048576u64))
    } else if before_suffix(token, "KiB"@) is Some {
        Some((trim_spec(before_suffix(token, "KiB"@)->0), 1024u64))
    } else if before_suffix(token, "B"@) is Some {
        Some((trim_spec(before_suffix(token, "B"@)->0), 1u64))
    } else {
        None
    }
}

/// The peak-memory field of a summary line, split into its number text
/// (trimmed) and the byte multiplier of its unit.
pub fn peak_mem_field(line: &str) -> (r: Option<(String, u64)>)
    ensures
        match peak_token(line@) {
            None => r is None,
            Some(tok) => match peak_unit(tok) {
                None => r is None,
                Some((n, m)) => r matches Some((x, y)) && x@ == n && y == m,
            },
        },
{
    let cs = chars_of(line);
    let pat = chars_of(" peakmem");
    let end = match find_chars(&cs, &pat) {
        Some(e) => e,
        None => return None,
    };
    proof {
        assert(find_spec(cs@, pat@) == Some(end as int));
    }
    let start: usize = match rfind_char(&cs, end, ';') {
        Some(i) => i + 1,
        None => 0,
    };
    let raw = substring(&cs, start, end);
    let token = trimmed(raw.as_str());
    proof {
        let before = cs@.take(end as int);
        assert(raw@ =~= before.subrange(start as int, before.len() as int));
    }
    match strip_suffix(token.as_str(), "GiB") {
        Some(n) => return Some((trimmed(n.as_str()), 1073741824u64)),
        None => {},
    }
    match strip_suffix(token.as_str(), "MiB") {
        Some(n) => return Some((trimmed(n.as_str()), 1048576u64)),
        None => {},
    }
    match strip_suffix(token.as_str(), "KiB") {
        Some(n) => return Some((trimmed(n.as_str()), 1024u64)),
        None => {},
    }
    match strip_suffix(token.as_str(), "B") {
        Some(n) => Some((trimmed(n.as_str()), 1u64)),
        None => None,
    }
}

/// What the integer half of reading a Nim build's stderr gathers: the
/// processed modules in order, whether the link step ran, the summary
/// lines (whose fields the caller reads), and the lines that are
/// recognized as nothing.
#[derive(Debug, Clone, PartialEq, Eq)]
pub struct HintCounts {
    pub processed_modules: Vec<String>,
    pub linked: bool,
    pub summary_lines: Vec<String>,
    pub unrecognized_line_count: usize,
}

/// The modules named by `lines`, in order.
pub open spec fn modules_in(lines: Seq<Seq<char>>) -> Seq<Seq<char>>
    decreases lines.len(),
{
    if lines.len() == 0 {
        Seq::empty()
    } else {
        let rest = modules_in(lines.drop_last());
        match classify(lines.last()) {
            HintLineView::Module(m) => rest.push(m),
            _ => rest,
        }
    }
}

/// The summary lines among `lines`, trimmed, in order.
pub open spec fn summaries_in(lines: Seq<Seq<char>>) -> Seq<Seq<char>>
    decreases lines.len(),
{
    if lines.len() == 0 {
        Seq::empty()
    } else {
        let rest = summaries_in(lines.drop_last());
        match classify(lines.last()) {
            HintLineView::Summary(t) => rest.push(t),
            _ => rest,
        }
    }
}

/// How many of `lines` are recognized as nothing.
pub open spec fn unrecognized_in(lines: Seq<Seq<char>>) -> nat
    decreases lines.len(),
{
    if lines.len() == 0 {
        0
    } else {
        unrecognized_in(lines.drop_last()) + if classify(lines.last()) is Unrecognized { 1nat } else { 0nat }
    }
}

/// Whether some line of `lines` is the link step.
pub open spec fn linked_in(lines: Seq<Seq<char>>) -> bool {
    exists|i: int| 0 <= i < lines.len() && classify(#[trigger] lines[i]) is Link
}

/// Reads every stderr line of a Nim build in order: modules, the link
/// step, the summary lines and the unrecognized lines.
pub fn count_hint_lines(text: &str) -> (r: HintCounts)
    ensures
        crate::resource_scheduler::strings_view(r.processed_modules@) == modules_in(lines_of(text@)),
        r.linked == linked_in(lines_of(text@)),
        crate::resource_scheduler::strings_view(r.summary_lines@) == summaries_in(lines_of(text@)),
        r.unrecognized_line_count == unrecognized_in(lines_of(text@)),
{
    let lines = split_lines(text);
    let ghost ls = lines_of(text@);
    let mut modules: Vec<String> = Vec::new();
    let mut summaries: Vec<String> = Vec::new();
    let mut linked = false;
    let mut unrecognized: usize = 0;
    let mut k: usize = 0;
    while k < lines.len()
        invariant
            k <= ls.len(),
            crate::resource_scheduler::strings_view(lines@) == ls,
            crate::resource_scheduler::strings_view(modules@) == modules_in(ls.take(k as int)),
            crate::resource_scheduler::strings_view(summaries@) == summaries_in(ls.take(k as int)),
            linked == linked_in(ls.take(k as int)),
            unrecognized == unrecognized_in(ls.take(k as int)),
            unrecognized <= k,
        decreases ls.len() - k,
    {
        let ghost pre = ls.take(k as int);
        let ghost now = ls.take(k + 1);
        let ghost mods0 = modules@;
        let ghost sums0 = summaries@;
        proof {
            assert(now.drop_last() =~= pre);
            assert(now.last() == lines@[k as int]@);
        }
        let kind = classify_hint_line(lines[k].as_str());
        match kind {
            HintLine::Module(m) => {
                modules.push(m);
                proof {
                    assert(crate::resource_scheduler::strings_view(modules@) =~= crate::resource_scheduler::strings_view(mods0).push(modules@[modules@.len() - 1]@));
                }
            },
            HintLine::Link => {
                linked = true;
            },
            HintLine::Summary(t) => {
                summaries.push(t);
                proof {
                    assert(crate::resource_scheduler::strings_view(summaries@) =~= crate::resource_scheduler::strings_view(sums0).push(summaries@[summaries@.len() - 1]@));
                }
            },
            HintLine::Unrecognized => {
                unrecognized = unrecognized + 1;
            },
            _ => {},
        }
        proof {
            assert(linked == linked_in(now)) by {
                if linked_in(now) && !linked_in(pre) {
                    let i = choose|i: int| 0 <= i < now.len() && classify(#[trigger] now[i]) is Link;
                    if i < pre.len() {
                        assert(pre[i] == now[i]);
                    }
                }
                if linked_in(pre) {
                    let i = choose|i: int| 0 <= i < pre.len() && classify(#[trigger] pre[i]) is Link;
                    assert(now[i] == pre[i]);
                }
                if classify(now.last()) is Link {
                    assert(classify(now[k as int]) is Link);
                }
            }
        }
        k = k + 1;
    }
    proof {
        assert(ls.take(k as int) =~= ls);
    }
    HintCounts { processed_modules: modules, linked, summary_lines: summaries, unrecognized_line_count: unrecognized }
}

} // verus!
