//! Parsing of Logseq-style markdown text into blocks: indentation levels,
//! `key:: value` property lines, reference extraction (`[[page]]`,
//! `((block-id))`, `#tag`), page-name normalization, and assembly of the
//! block hierarchy. The embedding binary walks the directories and reads
//! the files; everything here works on plain text.

use vstd::prelude::*;
use crate::pkm_data::{PKMBlockData, PKMReference};
use crate::reference_resolver::{ident_end, lemma_ident_end, spec_is_ref_char, string_eq};
use crate::text::{chars_to_string, lower_of, string_to_chars, to_lowercase};
use crate::utils::new_uuid;

verus! {

/// Errors of the import pipeline.
#[derive(Debug)]
pub enum ImportError {
    Io(String),
    Parse(String),
    InvalidFormat(String),
}

/// Outcome of an import run.
pub struct ImportResult {
    pub graph_id: String,
    pub graph_name: String,
    pub pages_imported: usize,
    pub blocks_imported: usize,
    pub errors: Vec<String>,
}

/// A parsed block: its content, properties, children and indentation.
pub struct LogseqBlock {
    pub id: Option<String>,
    pub content: String,
    pub properties: Vec<(String, String)>,
    pub children: Vec<LogseqBlock>,
    pub indent_level: usize,
}

/// The Unicode `White_Space` code points, the class that both `str::trim`
/// and the property pattern's whitespace skip use.
pub open spec fn spec_is_space(c: char) -> bool {
    let u = c as u32;
    (0x09 <= u && u <= 0x0D) || u == 0x20 || u == 0x85 || u == 0xA0 || u == 0x1680 || (0x2000 <= u
        && u <= 0x200A) || u == 0x2028 || u == 0x2029 || u == 0x202F || u == 0x205F || u == 0x3000
}

pub fn is_space(c: char) -> (r: bool)
    ensures
        r == spec_is_space(c),
{
    let u = c as u32;
    (0x09 <= u && u <= 0x0D) || u == 0x20 || u == 0x85 || u == 0xA0 || u == 0x1680 || (0x2000 <= u
        && u <= 0x200A) || u == 0x2028 || u == 0x2029 || u == 0x202F || u == 0x205F || u == 0x3000
}

/// First position at or after `j` whose character fails `pred` (or the end).
pub open spec fn run_end(s: Seq<char>, j: int, pred: spec_fn(char) -> bool) -> int
    recommends
        0 <= j <= s.len(),
    decreases s.len() - j,
{
    if j < 0 || j >= s.len() {
        s.len() as int
    } else if pred(s[j]) {
        run_end(s, j + 1, pred)
    } else {
        j
    }
}

pub proof fn lemma_run_end(s: Seq<char>, j: int, pred: spec_fn(char) -> bool)
    requires
        0 <= j <= s.len(),
    ensures
        j <= run_end(s, j, pred) <= s.len(),
        forall|k: int| j <= k < run_end(s, j, pred) ==> pred(#[trigger] s[k]),
        run_end(s, j, pred) < s.len() ==> !pred(s[run_end(s, j, pred)]),
    decreases s.len() - j,
{
    if j < s.len() && pred(s[j]) {
        lemma_run_end(s, j + 1, pred);
    }
}

pub proof fn lemma_run_end_from(s: Seq<char>, j0: int, j: int, pred: spec_fn(char) -> bool)
    requires
        0 <= j0 <= j <= s.len(),
        forall|k: int| j0 <= k < j ==> pred(#[trigger] s[k]),
        j == s.len() || !pred(s[j]),
    ensures
        run_end(s, j0, pred) == j,
    decreases j - j0,
{
    if j0 < j {
        lemma_run_end_from(s, j0 + 1, j, pred);
    }
}

/// Characters allowed in property keys and tags: `[a-zA-Z0-9_-]`.
pub open spec fn spec_is_tag_char(c: char) -> bool {
    spec_is_ref_char(c) || c == '_'
}

fn is_tag_char(c: char) -> (r: bool)
    ensures
        r == spec_is_tag_char(c),
{
    let u = c as u32;
    ('a' as u32 <= u && u <= 'z' as u32) || ('A' as u32 <= u && u <= 'Z' as u32) || ('0' as u32 <= u
        && u <= '9' as u32) || c == '-' || c == '_'
}

// ---------------------------------------------------------------------
// Indentation
// ---------------------------------------------------------------------
/// Tabs in `s`.
pub open spec fn count_tabs(s: Seq<char>) -> nat
    decreases s.len(),
{
    if s.len() == 0 {
        0
    } else {
        count_tabs(s.drop_last()) + if s.last() == '\t' {
            1nat
        } else {
            0nat
        }
    }
}

/// Spaces in `s`.
pub open spec fn count_blanks(s: Seq<char>) -> nat
    decreases s.len(),
{
    if s.len() == 0 {
        0
    } else {
        count_blanks(s.drop_last()) + if s.last() == ' ' {
            1nat
        } else {
            0nat
        }
    }
}

/// The indentation level of a block line: the tabs and halved spaces before
/// the leading dash; `None` when the line does not start a block.
pub open spec fn spec_get_indent_level(s: Seq<char>) -> Option<nat> {
    let e = run_end(s, 0, |c: char| c == '\t' || c == ' ');
    if e < s.len() && s[e] == '-' {
        Some(count_tabs(s.take(e)) + count_blanks(s.take(e)) / 2)
    } else {
        None
    }
}

/// Get the indentation level of a line: each tab counts as one level, each
/// pair of spaces as one.
pub fn get_indent_level(line: &str) -> (r: Option<usize>)
    ensures
        match r {
            Some(v) => spec_get_indent_level(line@) == Some(v as nat),
            None => spec_get_indent_level(line@) is None,
        },
{
    let s = string_to_chars(line);
    get_indent_level_chars(&s)
}

#[verifier::loop_isolation(false)]
pub fn get_indent_level_chars(s: &Vec<char>) -> (r: Option<usize>)
    ensures
        match r {
            Some(v) => spec_get_indent_level(s@) == Some(v as nat),
            None => spec_get_indent_level(s@) is None,
        },
{
    let ghost pred = |c: char| c == '\t' || c == ' ';
    let mut i: usize = 0;
    let mut tabs: usize = 0;
    let mut blanks: usize = 0;
    while i < s.len() && (s[i] == '\t' || s[i] == ' ')
        invariant
            0 <= i <= s@.len(),
            tabs == count_tabs(s@.take(i as int)),
            blanks == count_blanks(s@.take(i as int)),
            tabs + blanks <= i,
            forall|k: int| 0 <= k < i ==> pred(#[trigger] s@[k]),
        decreases s@.len() - i,
    {
        proof {
            assert(s@.take(i as int + 1).drop_last() =~= s@.take(i as int));
        }
        if s[i] == '\t' {
            tabs = tabs + 1;
        } else {
            blanks = blanks + 1;
        }
        i = i + 1;
    }
    proof {
        lemma_run_end_from(s@, 0, i as int, pred);
    }
    if i < s.len() && s[i] == '-' {
        Some(tabs + blanks / 2)
    } else {
        None
    }
}

// ---------------------------------------------------------------------
// Property lines
// ---------------------------------------------------------------------
/// The `key:: value` reading of a line, mirroring the pattern
/// `^([a-zA-Z0-9_-]+)::\s*(.+)$`: a non-empty key of tag characters, two
/// colons, skipped whitespace (backing off one character when everything
/// after the colons is whitespace), and a value running to the end that
/// must not cross a line feed.
pub open spec fn spec_parse_property(s: Seq<char>) -> Option<(Seq<char>, Seq<char>)> {
    let k = run_end(s, 0, |c: char| spec_is_tag_char(c));
    if k > 0 && k + 2 <= s.len() && s[k] == ':' && s[k + 1] == ':' {
        let w = run_end(s, k + 2, |c: char| spec_is_space(c));
        let v = if w < s.len() {
            w
        } else {
            s.len() - 1
        };
        if v >= k + 2 && !s.subrange(v, s.len() as int).contains('\n') {
            Some((s.take(k), s.subrange(v, s.len() as int)))
        } else {
            None
        }
    } else {
        None
    }
}

/// Parse a property line (`key:: value`).
pub fn parse_property(line: &str) -> (r: Option<(String, String)>)
    ensures
        match r {
            Some(p) => spec_parse_property(line@) == Some((p.0@, p.1@)),
            None => spec_parse_property(line@) is None,
        },
{
    let s = string_to_chars(line);
    parse_property_chars(&s)
}

#[verifier::loop_isolation(false)]
pub fn parse_property_chars(s: &Vec<char>) -> (r: Option<(String, String)>)
    ensures
        match r {
            Some(p) => spec_parse_property(s@) == Some((p.0@, p.1@)),
            None => spec_parse_property(s@) is None,
        },
{
    let ghost keypred = |c: char| spec_is_tag_char(c);
    let ghost wspred = |c: char| spec_is_space(c);
    let n = s.len();
    let mut k: usize = 0;
    while k < n && is_tag_char(s[k])
        invariant
            0 <= k <= n,
            n == s@.len(),
            forall|j: int| 0 <= j < k ==> keypred(#[trigger] s@[j]),
        decreases n - k,
    {
        k = k + 1;
    }
    proof {
        lemma_run_end_from(s@, 0, k as int, keypred);
    }
    if k == 0 || n - k < 2 {
        return None;
    }
    if !(s[k] == ':' && s[k + 1] == ':') {
        return None;
    }
    let mut w: usize = k + 2;
    while w < n && is_space(s[w])
        invariant
            k + 2 <= w <= n,
            forall|j: int| k + 2 <= j < w ==> wspred(#[trigger] s@[j]),
        decreases n - w,
    {
        w = w + 1;
    }
    proof {
        lemma_run_end_from(s@, k as int + 2, w as int, wspred);
    }
    let v: usize = if w < n {
        w
    } else {
        n - 1
    };
    if v < k + 2 {
        return None;
    }
    // the value must not cross a line feed
    let mut t: usize = v;
    while t < n
        invariant
            v <= t <= n,
            forall|j: int| v <= j < t ==> s@[j] != '\n',
        decreases n - t,
    {
        if s[t] == '\n' {
            proof {
                assert(s@.subrange(v as int, n as int)[t - v] == '\n');
            }
            return None;
        }
        t = t + 1;
    }
    proof {
        assert forall|j: int| 0 <= j < s@.subrange(v as int, n as int).len() implies s@.subrange(
            v as int,
            n as int,
        )[j] != '\n' by {
            assert(s@.subrange(v as int, n as int)[j] == s@[v + j]);
        }
        assert(!s@.subrange(v as int, n as int).contains('\n'));
    }
    let mut keyv: Vec<char> = Vec::new();
    let mut i: usize = 0;
    while i < k
        invariant
            0 <= i <= k <= s@.len(),
            keyv@ =~= s@.take(k as int).take(i as int),
        decreases k - i,
    {
        keyv.push(s[i]);
        proof {
            assert(keyv@ =~= s@.take(k as int).take(i as int + 1));
        }
        i = i + 1;
    }
    proof {
        assert(s@.take(k as int).take(k as int) =~= s@.take(k as int));
    }
    let mut valv: Vec<char> = Vec::new();
    let mut j: usize = v;
    while j < n
        invariant
            v <= j <= n,
            n == s@.len(),
            valv@ =~= s@.subrange(v as int, j as int),
        decreases n - j,
    {
        valv.push(s[j]);
        proof {
            assert(valv@ =~= s@.subrange(v as int, j as int + 1));
        }
        j = j + 1;
    }
    Some((chars_to_string(&keyv), chars_to_string(&valv)))
}

// ---------------------------------------------------------------------
// Reference extraction
// ---------------------------------------------------------------------
/// The `[[name]]` token starting exactly at `i`, if any.
pub open spec fn page_match_at(s: Seq<char>, i: int) -> Option<(Seq<char>, int)>
    recommends
        0 <= i < s.len(),
{
    if i + 2 <= s.len() && s[i] == '[' && s[i + 1] == '[' {
        let e = run_end(s, i + 2, |c: char| c != ']');
        if e > i + 2 && e + 2 <= s.len() && s[e] == ']' && s[e + 1] == ']' {
            Some((s.subrange(i + 2, e), e + 2))
        } else {
            None
        }
    } else {
        None
    }
}

/// The `#tag` token starting exactly at `i`, if any.
pub open spec fn tag_match_at(s: Seq<char>, i: int) -> Option<(Seq<char>, int)>
    recommends
        0 <= i < s.len(),
{
    if s[i] == '#' {
        let e = run_end(s, i + 1, |c: char| spec_is_tag_char(c));
        if e > i + 1 {
            Some((s.subrange(i + 1, e), e))
        } else {
            None
        }
    } else {
        None
    }
}

/// All `[[name]]` tokens of `s` from position `i` on, leftmost first and
/// non-overlapping.
pub open spec fn spec_page_refs(s: Seq<char>, i: int) -> Seq<Seq<char>>
    recommends
        0 <= i,
    decreases s.len() - i,
    via spec_page_refs_decreases
{
    if i < 0 || i >= s.len() {
        Seq::empty()
    } else {
        match page_match_at(s, i) {
            Some((nm, nx)) => seq![nm] + spec_page_refs(s, nx),
            None => spec_page_refs(s, i + 1),
        }
    }
}

#[via_fn]
proof fn spec_page_refs_decreases(s: Seq<char>, i: int) {
    if 0 <= i < s.len() && i + 2 <= s.len() {
        lemma_run_end(s, i + 2, |c: char| c != ']');
    }
}

/// All `((id))` tokens of `s` from position `i` on.
pub open spec fn spec_block_refs(s: Seq<char>, i: int) -> Seq<Seq<char>>
    recommends
        0 <= i,
    decreases s.len() - i,
    via spec_block_refs_decreases
{
    if i < 0 || i >= s.len() {
        Seq::empty()
    } else {
        match crate::reference_resolver::spec_match_at(s, i) {
            Some((id, nx)) => seq![id] + spec_block_refs(s, nx),
            None => spec_block_refs(s, i + 1),
        }
    }
}

#[via_fn]
proof fn spec_block_refs_decreases(s: Seq<char>, i: int) {
    if 0 <= i < s.len() && i + 2 <= s.len() {
        lemma_ident_end(s, i + 2);
    }
}

/// All `#tag` tokens of `s` from position `i` on.
pub open spec fn spec_tag_refs(s: Seq<char>, i: int) -> Seq<Seq<char>>
    recommends
        0 <= i,
    decreases s.len() - i,
    via spec_tag_refs_decreases
{
    if i < 0 || i >= s.len() {
        Seq::empty()
    } else {
        match tag_match_at(s, i) {
            Some((nm, nx)) => seq![nm] + spec_tag_refs(s, nx),
            None => spec_tag_refs(s, i + 1),
        }
    }
}

#[via_fn]
proof fn spec_tag_refs_decreases(s: Seq<char>, i: int) {
    if 0 <= i < s.len() {
        lemma_run_end(s, i + 1, |c: char| spec_is_tag_char(c));
    }
}

#[verifier::loop_isolation(false)]
fn page_match_at_exec(s: &Vec<char>, i: usize) -> (r: Option<(String, usize)>)
    requires
        i < s@.len(),
    ensures
        match r {
            Some(p) => page_match_at(s@, i as int) == Some((p.0@, p.1 as int)) && i < p.1
                <= s@.len(),
            None => page_match_at(s@, i as int) is None,
        },
{
    let ghost pred = |c: char| c != ']';
    let n = s.len();
    if n - i < 2 {
        return None;
    }
    if !(s[i] == '[' && s[i + 1] == '[') {
        return None;
    }
    let mut j = i + 2;
    while j < n && s[j] != ']'
        invariant
            i + 2 <= j <= n,
            forall|k: int| i + 2 <= k < j ==> pred(#[trigger] s@[k]),
        decreases n - j,
    {
        j = j + 1;
    }
    proof {
        lemma_run_end_from(s@, i as int + 2, j as int, pred);
    }
    if j == i + 2 {
        return None;
    }
    if n - j < 2 {
        return None;
    }
    if !(s[j] == ']' && s[j + 1] == ']') {
        return None;
    }
    let mut namev: Vec<char> = Vec::new();
    let mut k = i + 2;
    while k < j
        invariant
            i + 2 <= k <= j <= s@.len(),
            namev@ =~= s@.subrange(i as int + 2, k as int),
        decreases j - k,
    {
        namev.push(s[k]);
        proof {
            assert(namev@ =~= s@.subrange(i as int + 2, k as int + 1));
        }
        k = k + 1;
    }
    Some((chars_to_string(&namev), j + 2))
}

#[verifier::loop_isolation(false)]
fn tag_match_at_exec(s: &Vec<char>, i: usize) -> (r: Option<(String, usize)>)
    requires
        i < s@.len(),
    ensures
        match r {
            Some(p) => tag_match_at(s@, i as int) == Some((p.0@, p.1 as int)) && i < p.1
                <= s@.len(),
            None => tag_match_at(s@, i as int) is None,
        },
{
    let ghost pred = |c: char| spec_is_tag_char(c);
    let n = s.len();
    if s[i] != '#' {
        return None;
    }
    let mut j = i + 1;
    while j < n && is_tag_char(s[j])
        invariant
            i + 1 <= j <= n,
            forall|k: int| i + 1 <= k < j ==> pred(#[trigger] s@[k]),
        decreases n - j,
    {
        j = j + 1;
    }
    proof {
        lemma_run_end_from(s@, i as int + 1, j as int, pred);
    }
    if j == i + 1 {
        return None;
    }
    let mut namev: Vec<char> = Vec::new();
    let mut k = i + 1;
    while k < j
        invariant
            i + 1 <= k <= j <= s@.len(),
            namev@ =~= s@.subrange(i as int + 1, k as int),
        decreases j - k,
    {
        namev.push(s[k]);
        proof {
            assert(namev@ =~= s@.subrange(i as int + 1, k as int + 1));
        }
        k = k + 1;
    }
    Some((chars_to_string(&namev), j))
}

#[verifier::loop_isolation(false)]
fn collect_page_refs(s: &Vec<char>) -> (r: Vec<String>)
    ensures
        r@.map_values(|x: String| x@) =~= spec_page_refs(s@, 0),
{
    let mut out: Vec<String> = Vec::new();
    let mut i: usize = 0;
    while i < s.len()
        invariant
            0 <= i <= s@.len(),
            spec_page_refs(s@, 0) =~= out@.map_values(|x: String| x@) + spec_page_refs(
                s@,
                i as int,
            ),
        decreases s@.len() - i,
    {
        let ghost out_pre = out@;
        match page_match_at_exec(s, i) {
            Some((nm, nx)) => {
                out.push(nm);
                proof {
                    assert(out@.map_values(|x: String| x@) =~= out_pre.map_values(|x: String| x@)
                        + seq![out@.last()@]);
                    assert(out_pre.map_values(|x: String| x@) + (seq![out@.last()@]
                        + spec_page_refs(s@, nx as int)) =~= out@.map_values(|x: String| x@)
                        + spec_page_refs(s@, nx as int));
                }
                i = nx;
            },
            None => {
                i = i + 1;
            },
        }
    }
    proof {
        assert(spec_page_refs(s@, i as int) =~= Seq::<Seq<char>>::empty());
        assert(out@.map_values(|x: String| x@) + Seq::<Seq<char>>::empty() =~= out@.map_values(
            |x: String| x@,
        ));
    }
    out
}

#[verifier::loop_isolation(false)]
fn collect_block_refs(s: &Vec<char>) -> (r: Vec<String>)
    ensures
        r@.map_values(|x: String| x@) =~= spec_block_refs(s@, 0),
{
    let mut out: Vec<String> = Vec::new();
    let mut i: usize = 0;
    while i < s.len()
        invariant
            0 <= i <= s@.len(),
            spec_block_refs(s@, 0) =~= out@.map_values(|x: String| x@) + spec_block_refs(
                s@,
                i as int,
            ),
        decreases s@.len() - i,
    {
        let ghost out_pre = out@;
        match crate::reference_resolver::match_at(s, i) {
            Some((id, nx)) => {
                out.push(id);
                proof {
                    assert(out@.map_values(|x: String| x@) =~= out_pre.map_values(|x: String| x@)
                        + seq![out@.last()@]);
                    assert(out_pre.map_values(|x: String| x@) + (seq![out@.last()@]
                        + spec_block_refs(s@, nx as int)) =~= out@.map_values(|x: String| x@)
                        + spec_block_refs(s@, nx as int));
                }
                i = nx;
            },
            None => {
                i = i + 1;
            },
        }
    }
    proof {
        assert(spec_block_refs(s@, i as int) =~= Seq::<Seq<char>>::empty());
        assert(out@.map_values(|x: String| x@) + Seq::<Seq<char>>::empty() =~= out@.map_values(
            |x: String| x@,
        ));
    }
    out
}

#[verifier::loop_isolation(false)]
fn collect_tag_refs(s: &Vec<char>) -> (r: Vec<String>)
    ensures
        r@.map_values(|x: String| x@) =~= spec_tag_refs(s@, 0),
{
    let mut out: Vec<String> = Vec::new();
    let mut i: usize = 0;
    while i < s.len()
        invariant
            0 <= i <= s@.len(),
            spec_tag_refs(s@, 0) =~= out@.map_values(|x: String| x@) + spec_tag_refs(s@, i as int),
        decreases s@.len() - i,
    {
        let ghost out_pre = out@;
        match tag_match_at_exec(s, i) {
            Some((nm, nx)) => {
                out.push(nm);
                proof {
                    assert(out@.map_values(|x: String| x@) =~= out_pre.map_values(|x: String| x@)
                        + seq![out@.last()@]);
                    assert(out_pre.map_values(|x: String| x@) + (seq![out@.last()@]
                        + spec_tag_refs(s@, nx as int)) =~= out@.map_values(|x: String| x@)
                        + spec_tag_refs(s@, nx as int));
                }
                i = nx;
            },
            None => {
                i = i + 1;
            },
        }
    }
    proof {
        assert(spec_tag_refs(s@, i as int) =~= Seq::<Seq<char>>::empty());
        assert(out@.map_values(|x: String| x@) + Seq::<Seq<char>>::empty() =~= out@.map_values(
            |x: String| x@,
        ));
    }
    out
}

/// Extract the references of a block's content: every page reference, then
/// every block reference, then every tag, in text order within each kind.
pub fn extract_references(content: &str) -> (r: Vec<PKMReference>)
    ensures
        ({
            let p = spec_page_refs(content@, 0);
            let b = spec_block_refs(content@, 0);
            let t = spec_tag_refs(content@, 0);
            &&& r@.len() == p.len() + b.len() + t.len()
            &&& (forall|i: int|
                0 <= i < p.len() ==> (#[trigger] r@[i]).ref_type@ == "page"@ && r@[i].name@ == p[i]
                    && r@[i].id@.len() == 0)
            &&& (forall|i: int|
                0 <= i < b.len() ==> (#[trigger] r@[p.len() + i]).ref_type@ == "block"@ && r@[p.len()
                    + i].id@ == b[i] && r@[p.len() + i].name@.len() == 0)
            &&& (forall|i: int|
                0 <= i < t.len() ==> (#[trigger] r@[p.len() + b.len() + i]).ref_type@ == "tag"@
                    && r@[p.len() + b.len() + i].name@ == t[i] && r@[p.len() + b.len()
                    + i].id@.len() == 0)
        }),
{
    let s = string_to_chars(content);
    let pages = collect_page_refs(&s);
    let blocks = collect_block_refs(&s);
    let tags = collect_tag_refs(&s);
    let ghost p = spec_page_refs(content@, 0);
    let ghost b = spec_block_refs(content@, 0);
    let ghost t = spec_tag_refs(content@, 0);
    let mut out: Vec<PKMReference> = Vec::new();
    let mut i: usize = 0;
    while i < pages.len()
        invariant
            0 <= i <= pages@.len(),
            pages@.map_values(|x: String| x@) =~= p,
            out@.len() == i,
            forall|j: int|
                0 <= j < i ==> (#[trigger] out@[j]).ref_type@ == "page"@ && out@[j].name@ == p[j]
                    && out@[j].id@.len() == 0,
        decreases pages@.len() - i,
    {
        proof {
            assert(pages@.map_values(|x: String| x@)[i as int] == pages@[i as int]@);
        }
        out.push(
            PKMReference {
                ref_type: "page".to_owned(),
                name: pages[i].clone(),
                id: String::new(),
            },
        );
        i = i + 1;
    }
    let mut j: usize = 0;
    while j < blocks.len()
        invariant
            0 <= j <= blocks@.len(),
            blocks@.map_values(|x: String| x@) =~= b,
            out@.len() == p.len() + j,
            forall|k: int|
                0 <= k < p.len() ==> (#[trigger] out@[k]).ref_type@ == "page"@ && out@[k].name@
                    == p[k] && out@[k].id@.len() == 0,
            forall|k: int|
                0 <= k < j ==> (#[trigger] out@[p.len() + k]).ref_type@ == "block"@ && out@[p.len()
                    + k].id@ == b[k] && out@[p.len() + k].name@.len() == 0,
        decreases blocks@.len() - j,
    {
        proof {
            assert(blocks@.map_values(|x: String| x@)[j as int] == blocks@[j as int]@);
        }
        out.push(
            PKMReference {
                ref_type: "block".to_owned(),
                name: String::new(),
                id: blocks[j].clone(),
            },
        );
        j = j + 1;
    }
    let mut k: usize = 0;
    while k < tags.len()
        invariant
            0 <= k <= tags@.len(),
            tags@.map_values(|x: String| x@) =~= t,
            out@.len() == p.len() + b.len() + k,
            forall|q: int|
                0 <= q < p.len() ==> (#[trigger] out@[q]).ref_type@ == "page"@ && out@[q].name@
                    == p[q] && out@[q].id@.len() == 0,
            forall|q: int|
                0 <= q < b.len() ==> (#[trigger] out@[p.len() + q]).ref_type@ == "block"@
                    && out@[p.len() + q].id@ == b[q] && out@[p.len() + q].name@.len() == 0,
            forall|q: int|
                0 <= q < k ==> (#[trigger] out@[p.len() + b.len() + q]).ref_type@ == "tag"@
                    && out@[p.len() + b.len() + q].name@ == t[q] && out@[p.len() + b.len()
                    + q].id@.len() == 0,
        decreases tags@.len() - k,
    {
        proof {
            assert(tags@.map_values(|x: String| x@)[k as int] == tags@[k as int]@);
        }
        out.push(
            PKMReference { ref_type: "tag".to_owned(), name: tags[k].clone(), id: String::new() },
        );
        k = k + 1;
    }
    out
}

// ---------------------------------------------------------------------
// Page names
// ---------------------------------------------------------------------
/// Spaces replaced by underscores.
pub open spec fn spec_underscore(s: Seq<char>) -> Seq<char> {
    s.map_values(
        |c: char|
            if c == ' ' {
                '_'
            } else {
                c
            },
    )
}

// ---------------------------------------------------------------------
// Trimming and line splitting
// ---------------------------------------------------------------------
/// Index of the last non-whitespace character plus one.
pub open spec fn trim_back(s: Seq<char>) -> int
    decreases s.len(),
{
    if s.len() == 0 {
        0
    } else if spec_is_space(s.last()) {
        trim_back(s.drop_last())
    } else {
        s.len() as int
    }
}

pub proof fn lemma_trim_back(s: Seq<char>)
    ensures
        0 <= trim_back(s) <= s.len(),
        forall|k: int| trim_back(s) <= k < s.len() ==> spec_is_space(#[trigger] s[k]),
        trim_back(s) > 0 ==> !spec_is_space(s[trim_back(s) - 1]),
    decreases s.len(),
{
    if s.len() > 0 && spec_is_space(s.last()) {
        lemma_trim_back(s.drop_last());
        assert forall|k: int| trim_back(s) <= k < s.len() implies spec_is_space(
            #[trigger] s[k],
        ) by {
            if k < s.len() - 1 {
                assert(s.drop_last()[k] == s[k]);
            }
        }
    }
}

/// `s` with leading and trailing whitespace removed.
pub open spec fn spec_trim(s: Seq<char>) -> Seq<char> {
    let a = run_end(s, 0, |c: char| spec_is_space(c));
    let b = trim_back(s);
    if a <= b {
        s.subrange(a, b)
    } else {
        Seq::empty()
    }
}

/// `s` without its leading whitespace.
pub open spec fn spec_trim_start(s: Seq<char>) -> Seq<char> {
    s.skip(run_end(s, 0, |c: char| spec_is_space(c)))
}

/// `s` without its leading dashes.
pub open spec fn spec_strip_dashes(s: Seq<char>) -> Seq<char> {
    s.skip(run_end(s, 0, |c: char| c == '-'))
}

#[verifier::loop_isolation(false)]
pub fn trim_chars(s: &Vec<char>) -> (r: Vec<char>)
    ensures
        r@ == spec_trim(s@),
{
    let ghost wspred = |c: char| spec_is_space(c);
    let n = s.len();
    let mut a: usize = 0;
    while a < n && is_space(s[a])
        invariant
            0 <= a <= n,
            forall|k: int| 0 <= k < a ==> wspred(#[trigger] s@[k]),
        decreases n - a,
    {
        a = a + 1;
    }
    proof {
        lemma_run_end_from(s@, 0, a as int, wspred);
        lemma_trim_back(s@);
    }
    let mut b: usize = n;
    while b > 0 && is_space(s[b - 1])
        invariant
            0 <= b <= n,
            forall|k: int| b <= k < n ==> spec_is_space(#[trigger] s@[k]),
            trim_back(s@) <= b,
        decreases b,
    {
        proof {
            lemma_trim_back(s@.take(b as int - 1));
            assert forall|k: int| 0 <= k < b - 1 implies s@.take(b as int - 1)[k] == s@[k] by {}
            lemma_trim_back_take(s@, b as int - 1);
        }
        b = b - 1;
    }
    proof {
        if b > 0 {
            assert(!spec_is_space(s@[b as int - 1]));
            lemma_trim_back_take(s@, b as int);
            assert(trim_back(s@.take(b as int)) == b);
        }
        assert(trim_back(s@) == if b == 0 {
            0int
        } else {
            b as int
        });
    }
    let mut out: Vec<char> = Vec::new();
    if a >= b {
        proof {
            if a > trim_back(s@) {
                assert(spec_trim(s@) =~= Seq::<char>::empty());
            } else {
                assert(spec_trim(s@) =~= s@.subrange(a as int, trim_back(s@)));
                assert(spec_trim(s@) =~= Seq::<char>::empty());
            }
        }
        return out;
    }
    let mut i: usize = a;
    while i < b
        invariant
            a <= i <= b <= s@.len(),
            out@ =~= s@.subrange(a as int, i as int),
        decreases b - i,
    {
        out.push(s[i]);
        proof {
            assert(out@ =~= s@.subrange(a as int, i as int + 1));
        }
        i = i + 1;
    }
    out
}

/// Trimming is insensitive to a trailing run of whitespace.
proof fn lemma_trim_back_take(s: Seq<char>, b: int)
    requires
        0 <= b <= s.len(),
        forall|k: int| b <= k < s.len() ==> spec_is_space(#[trigger] s[k]),
    ensures
        trim_back(s) == trim_back(s.take(b)),
    decreases s.len() - b,
{
    if b < s.len() {
        lemma_trim_back_take(s, b + 1);
        assert(s.take(b + 1).drop_last() =~= s.take(b));
        assert(s.take(b + 1).last() == s[b]);
    } else {
        assert(s.take(b) =~= s);
    }
}

#[verifier::loop_isolation(false)]
pub fn trim_start_chars(s: &Vec<char>) -> (r: Vec<char>)
    ensures
        r@ == spec_trim_start(s@),
{
    let ghost wspred = |c: char| spec_is_space(c);
    let n = s.len();
    let mut a: usize = 0;
    while a < n && is_space(s[a])
        invariant
            0 <= a <= n,
            forall|k: int| 0 <= k < a ==> wspred(#[trigger] s@[k]),
        decreases n - a,
    {
        a = a + 1;
    }
    proof {
        lemma_run_end_from(s@, 0, a as int, wspred);
    }
    let mut out: Vec<char> = Vec::new();
    let mut i: usize = a;
    while i < n
        invariant
            a <= i <= n,
            out@ =~= s@.subrange(a as int, i as int),
        decreases n - i,
    {
        out.push(s[i]);
        proof {
            assert(out@ =~= s@.subrange(a as int, i as int + 1));
        }
        i = i + 1;
    }
    proof {
        assert(s@.subrange(a as int, n as int) =~= s@.skip(a as int));
    }
    out
}

#[verifier::loop_isolation(false)]
pub fn strip_dashes_chars(s: &Vec<char>) -> (r: Vec<char>)
    ensures
        r@ == spec_strip_dashes(s@),
{
    let ghost pred = |c: char| c == '-';
    let n = s.len();
    let mut a: usize = 0;
    while a < n && s[a] == '-'
        invariant
            0 <= a <= n,
            forall|k: int| 0 <= k < a ==> pred(#[trigger] s@[k]),
        decreases n - a,
    {
        a = a + 1;
    }
    proof {
        lemma_run_end_from(s@, 0, a as int, pred);
    }
    let mut out: Vec<char> = Vec::new();
    let mut i: usize = a;
    while i < n
        invariant
            a <= i <= n,
            out@ =~= s@.subrange(a as int, i as int),
        decreases n - i,
    {
        out.push(s[i]);
        proof {
            assert(out@ =~= s@.subrange(a as int, i as int + 1));
        }
        i = i + 1;
    }
    proof {
        assert(s@.subrange(a as int, n as int) =~= s@.skip(a as int));
    }
    out
}

/// A line with a trailing carriage return removed.
pub open spec fn strip_cr(l: Seq<char>) -> Seq<char> {
    if l.len() > 0 && l.last() == '\r' {
        l.drop_last()
    } else {
        l
    }
}

/// The lines of `s`, split at `\n` or `\r\n`, a final line ending yielding
/// no extra empty line — as `str::lines` splits.
pub open spec fn spec_lines(s: Seq<char>) -> Seq<Seq<char>>
    decreases s.len(),
    via spec_lines_decreases
{
    if s.len() == 0 {
        Seq::empty()
    } else {
        let e = run_end(s, 0, |c: char| c != '\n');
        if e < s.len() {
            seq![strip_cr(s.take(e))] + spec_lines(s.skip(e + 1))
        } else {
            seq![strip_cr(s)]
        }
    }
}

#[via_fn]
proof fn spec_lines_decreases(s: Seq<char>) {
    if s.len() > 0 {
        lemma_run_end(s, 0, |c: char| c != '\n');
    }
}

#[verifier::loop_isolation(false)]
#[verifier::rlimit(100)]
pub fn split_lines(s: &Vec<char>) -> (r: Vec<Vec<char>>)
    ensures
        r@.map_values(|l: Vec<char>| l@) =~= spec_lines(s@),
{
    let ghost pred = |c: char| c != '\n';
    let mut out: Vec<Vec<char>> = Vec::new();
    let mut start: usize = 0;
    let n = s.len();
    proof {
        assert(s@.skip(0) =~= s@);
        assert(out@.map_values(|l: Vec<char>| l@) + spec_lines(s@) =~= spec_lines(s@));
    }
    while start < n
        invariant
            0 <= start <= n,
            n == s@.len(),
            spec_lines(s@) =~= out@.map_values(|l: Vec<char>| l@) + spec_lines(
                s@.skip(start as int),
            ),
        decreases n - start,
    {
        let ghost out_pre = out@;
        let ghost suffix = s@.skip(start as int);
        let mut j: usize = start;
        while j < n && s[j] != '\n'
            invariant
                start <= j <= n,
                forall|k: int| start <= k < j ==> s@[k] != '\n',
            decreases n - j,
        {
            j = j + 1;
        }
        proof {
            assert forall|k: int| 0 <= k < j - start implies pred(#[trigger] suffix[k]) by {
                assert(suffix[k] == s@[start + k]);
            }
            if j < n {
                assert(suffix[j - start] == s@[j as int]);
            }
            lemma_run_end_from(suffix, 0, j as int - start as int, pred);
        }
        let mut piece: Vec<char> = Vec::new();
        let mut k = start;
        while k < j
            invariant
                start <= k <= j <= s@.len(),
                piece@ =~= s@.subrange(start as int, k as int),
            decreases j - k,
        {
            piece.push(s[k]);
            proof {
                assert(piece@ =~= s@.subrange(start as int, k as int + 1));
            }
            k = k + 1;
        }
        proof {
            assert(s@.subrange(start as int, j as int) =~= suffix.take(j as int - start as int));
        }
        if piece.len() > 0 && piece[piece.len() - 1] == '\r' {
            piece.pop();
        }
        proof {
            assert(piece@ =~= strip_cr(suffix.take(j as int - start as int)));
        }
        out.push(piece);
        proof {
            assert(out@.map_values(|l: Vec<char>| l@) =~= out_pre.map_values(|l: Vec<char>| l@)
                + seq![out@.last()@]);
        }
        if j < n {
            proof {
                assert(suffix.skip(j as int - start as int + 1) =~= s@.skip(j as int + 1));
                assert(spec_lines(suffix) =~= seq![strip_cr(suffix.take(j as int - start as int))]
                    + spec_lines(s@.skip(j as int + 1)));
                assert(out_pre.map_values(|l: Vec<char>| l@) + spec_lines(suffix)
                    =~= out@.map_values(|l: Vec<char>| l@) + spec_lines(s@.skip(j as int + 1)));
            }
            start = j + 1;
        } else {
            proof {
                assert(suffix.take(j as int - start as int) =~= suffix);
                assert(spec_lines(suffix) =~= seq![strip_cr(suffix)]);
                assert(s@.skip(n as int) =~= Seq::<char>::empty());
                assert(out_pre.map_values(|l: Vec<char>| l@) + spec_lines(suffix)
                    =~= out@.map_values(|l: Vec<char>| l@) + spec_lines(s@.skip(n as int)));
            }
            start = n;
        }
    }
    proof {
        assert(spec_lines(s@.skip(start as int)) =~= Seq::<Seq<char>>::empty());
        assert(out@.map_values(|l: Vec<char>| l@) + Seq::<Seq<char>>::empty() =~= out@.map_values(
            |l: Vec<char>| l@,
        ));
    }
    out
}

// ---------------------------------------------------------------------
// File parsing
// ---------------------------------------------------------------------
/// Parse a Logseq file into a tree of blocks. Returns an error exactly when
/// the content is empty or all whitespace; block lines open blocks at their
/// indentation level, indented `key:: value` lines attach properties (`id`
/// setting the block's identifier), and other non-empty lines continue the
/// current block's content. The flat list is then nested by indentation.
pub fn parse_logseq_file(content: &str) -> (r: Result<Vec<LogseqBlock>, ImportError>)
    ensures
        r is Ok <==> spec_trim(content@).len() > 0,
{
    let chars = string_to_chars(content);
    let trimmed = trim_chars(&chars);
    if trimmed.len() == 0 {
        return Err(ImportError::Parse("Empty file content".to_owned()));
    }
    let lines = split_lines(&chars);
    let mut all_blocks: Vec<LogseqBlock> = Vec::new();
    let mut current: Option<LogseqBlock> = None;
    let mut in_properties = false;
    let id_key = "id".to_owned();
    let mut li: usize = 0;
    while li < lines.len()
        decreases lines@.len() - li,
    {
        let line = &lines[li];
        li = li + 1;
        // page-level properties before any block are skipped
        let opens_block = line.len() > 0 && (line[0] == '-' || line[0] == '\t' || line[0] == ' ');
        if !opens_block {
            if parse_property_chars(line).is_some() {
                continue ;
            }
        }
        if let Some(level) = get_indent_level_chars(line) {
            match current.take() {
                Some(b) => {
                    all_blocks.push(b);
                },
                None => {},
            }
            let head = trim_chars(&strip_dashes_chars(&trim_start_chars(line)));
            current = Some(
                LogseqBlock {
                    id: None,
                    content: chars_to_string(&head),
                    properties: Vec::new(),
                    children: Vec::new(),
                    indent_level: level,
                },
            );
            in_properties = true;
        } else if in_properties && current.is_some() {
            let tl = trim_chars(line);
            if let Some((key, value)) = parse_property_chars(&tl) {
                if let Some(b) = &mut current {
                    if string_eq(&key, &id_key) {
                        b.id = Some(value.clone());
                    }
                    b.properties.push((key, value));
                }
            } else if tl.len() > 0 {
                in_properties = false;
                if let Some(b) = &mut current {
                    append_line(&mut b.content, &tl);
                }
            }
        } else if current.is_some() {
            let tl = trim_chars(line);
            if tl.len() > 0 {
                if let Some(b) = &mut current {
                    append_line(&mut b.content, &tl);
                }
            }
        }
    }
    match current.take() {
        Some(b) => {
            all_blocks.push(b);
        },
        None => {},
    }
    Ok(build_block_hierarchy(all_blocks))
}

/// Appends a newline and then the given characters to the content.
fn append_line(content: &mut String, tail: &Vec<char>)
    ensures
        final(content)@ == old(content)@ + seq!['\n'] + tail@,
{
    let mut cs = string_to_chars(content.as_str());
    cs.push('\n');
    let mut i: usize = 0;
    while i < tail.len()
        invariant
            0 <= i <= tail@.len(),
            cs@ =~= old(content)@ + seq!['\n'] + tail@.take(i as int),
        decreases tail@.len() - i,
    {
        cs.push(tail[i]);
        proof {
            assert(cs@ =~= old(content)@ + seq!['\n'] + tail@.take(i as int + 1));
        }
        i = i + 1;
    }
    proof {
        assert(tail@.take(tail@.len() as int) =~= tail@);
    }
    *content = chars_to_string(&cs);
}

/// Nest a flat list of blocks by indentation: each block becomes a child of
/// the nearest earlier block with a smaller indentation level; blocks with
/// no such parent stay roots, order preserved.
fn build_block_hierarchy(blocks: Vec<LogseqBlock>) -> (r: Vec<LogseqBlock>)
{
    let mut blocks = blocks;
    let mut nodes: Vec<Option<LogseqBlock>> = Vec::new();
    let mut parent_indices: Vec<Option<usize>> = Vec::new();
    while blocks.len() > 0
        invariant
            nodes@.len() == parent_indices@.len(),
            forall|k: int| 0 <= k < parent_indices@.len() ==> (#[trigger] parent_indices@[k]) is None,
        decreases blocks@.len(),
    {
        let b = blocks.remove(0);
        nodes.push(Some(b));
        parent_indices.push(None);
    }
    // first pass: find each block's parent with a stack of open ancestors
    let mut stack: Vec<usize> = Vec::new();
    let mut i: usize = 0;
    while i < nodes.len()
        invariant
            nodes@.len() == parent_indices@.len(),
            forall|k: int| 0 <= k < stack@.len() ==> #[trigger] stack@[k] < i,
            forall|k: int|
                0 <= k < parent_indices@.len() ==> ((#[trigger] parent_indices@[k]) matches Some(p)
                    ==> p < k),
        decreases nodes@.len() - i,
    {
        let current_indent = match &nodes[i] {
            Some(b) => b.indent_level,
            None => 0,
        };
        loop
            invariant
                nodes@.len() == parent_indices@.len(),
                i < nodes@.len(),
                forall|k: int| 0 <= k < stack@.len() ==> #[trigger] stack@[k] < i,
                forall|k: int|
                    0 <= k < parent_indices@.len() ==> ((#[trigger] parent_indices@[k]) matches
                        Some(p) ==> p < k),
            decreases stack@.len(),
        {
            if stack.len() == 0 {
                break ;
            }
            let parent_idx = stack[stack.len() - 1];
            let parent_indent = match &nodes[parent_idx] {
                Some(b) => b.indent_level,
                None => 0,
            };
            if parent_indent < current_indent {
                let pref = &mut parent_indices[i];
                *pref = Some(parent_idx);
                break ;
            }
            stack.pop();
        }
        stack.push(i);
        i = i + 1;
    }
    // second pass, in reverse: move each child into its parent, keeping order
    let mut j: usize = nodes.len();
    while j > 0
        invariant
            nodes@.len() == parent_indices@.len(),
            j <= nodes@.len(),
            forall|k: int|
                0 <= k < parent_indices@.len() ==> ((#[trigger] parent_indices@[k]) matches Some(p)
                    ==> p < k),
        decreases j,
    {
        j = j - 1;
        let pidx = parent_indices[j];
        if let Some(p) = pidx {
            let child_slot = &mut nodes[j];
            let child_opt = child_slot.take();
            if let Some(child) = child_opt {
                let slot = &mut nodes[p];
                match slot {
                    Some(parent) => {
                        parent.children.insert(0, child);
                    },
                    None => {},
                }
            }
        }
    }
    // collect the remaining roots in order
    let mut roots: Vec<LogseqBlock> = Vec::new();
    let mut k: usize = 0;
    while k < nodes.len()
        decreases nodes@.len() - k,
    {
        let slot = &mut nodes[k];
        if let Some(b) = slot.take() {
            roots.push(b);
        }
        k = k + 1;
    }
    roots
}

// ---------------------------------------------------------------------
// Conversion to PKM records
// ---------------------------------------------------------------------
/// Count of blocks at the top level whose trimmed content is non-empty.
pub open spec fn count_convertible(s: Seq<LogseqBlock>) -> nat
    decreases s.len(),
{
    if s.len() == 0 {
        0
    } else {
        count_convertible(s.drop_last()) + if spec_trim(s.last().content@).len() > 0 {
            1nat
        } else {
            0nat
        }
    }
}

/// Convert parsed blocks into PKM block records, recursively. Blocks whose
/// trimmed content is empty are dropped, children included; every converted
/// block carries the page name, its parent, its extracted references and a
/// fresh identifier when the source gave none, and is appended to
/// `all_blocks`. Returns the identifiers of the converted top-level blocks.
#[verifier::loop_isolation(false)]
pub fn convert_blocks_to_pkm(
    logseq_blocks: &Vec<LogseqBlock>,
    page_name: &str,
    all_blocks: &mut Vec<PKMBlockData>,
    parent_id: Option<String>,
) -> (r: Result<Vec<String>, ImportError>)
    ensures
        r is Ok,
        r matches Ok(ids) ==> ids@.len() == count_convertible(logseq_blocks@),
        old(all_blocks)@.len() <= final(all_blocks)@.len(),
        forall|i: int|
            0 <= i < old(all_blocks)@.len() ==> final(all_blocks)@[i] == old(all_blocks)@[i],
    decreases logseq_blocks@,
{
    let created_key = "created".to_owned();
    let updated_key = "updated".to_owned();
    let stamp_key = "cymbiont-updated-ms".to_owned();
    let id_key = "id".to_owned();
    let mut block_ids: Vec<String> = Vec::new();
    let mut i: usize = 0;
    while i < logseq_blocks.len()
        invariant
            0 <= i <= logseq_blocks@.len(),
            block_ids@.len() == count_convertible(logseq_blocks@.take(i as int)),
            old(all_blocks)@.len() <= all_blocks@.len(),
            forall|k: int|
                0 <= k < old(all_blocks)@.len() ==> all_blocks@[k] == old(all_blocks)@[k],
        decreases logseq_blocks@.len() - i,
    {
        proof {
            assert(logseq_blocks@.take(i as int + 1).drop_last() =~= logseq_blocks@.take(i as int));
            assert(logseq_blocks@.take(i as int + 1).last() == logseq_blocks@[i as int]);
        }
        let b = &logseq_blocks[i];
        let content_chars = string_to_chars(b.content.as_str());
        let trimmed = trim_chars(&content_chars);
        if trimmed.len() == 0 {
            i = i + 1;
            continue ;
        }
        let block_id: String = match &b.id {
            Some(id) => id.clone(),
            None => new_uuid(),
        };
        let references = extract_references(b.content.as_str());
        let now_str = crate::text::i64_to_dec_string(crate::utils::now_millis());
        let created: String = match crate::reference_resolver::assoc_lookup(
            &b.properties,
            &created_key,
        ) {
            Some(v) => v,
            None => match crate::reference_resolver::assoc_lookup(&b.properties, &stamp_key) {
                Some(v) => v,
                None => now_str.clone(),
            },
        };
        let updated: String = match crate::reference_resolver::assoc_lookup(
            &b.properties,
            &updated_key,
        ) {
            Some(v) => v,
            None => match crate::reference_resolver::assoc_lookup(&b.properties, &stamp_key) {
                Some(v) => v,
                None => now_str.clone(),
            },
        };
        let mut properties: Vec<(String, String)> = Vec::new();
        let mut pi: usize = 0;
        while pi < b.properties.len()
            decreases b.properties@.len() - pi,
        {
            let pair = &b.properties[pi];
            if !(string_eq(&pair.0, &id_key) || string_eq(&pair.0, &created_key) || string_eq(
                &pair.0,
                &updated_key,
            )) {
                properties.push((pair.0.clone(), pair.1.clone()));
            }
            pi = pi + 1;
        }
        proof {
            assert(decreases_to!(logseq_blocks@ => logseq_blocks@[i as int]));
            assert(decreases_to!(logseq_blocks@[i as int] => logseq_blocks@[i as int].children));
        }
        let children = match convert_blocks_to_pkm(
            &b.children,
            page_name,
            all_blocks,
            Some(block_id.clone()),
        ) {
            Ok(c) => c,
            Err(_) => Vec::new(),
        };
        let block = PKMBlockData {
            id: block_id.clone(),
            content: b.content.clone(),
            created,
            updated,
            parent: match &parent_id {
                Some(p) => Some(p.clone()),
                None => None,
            },
            children,
            page: Some(page_name.to_owned()),
            properties,
            references,
            reference_content: None,
        };
        all_blocks.push(block);
        block_ids.push(block_id);
        i = i + 1;
    }
    proof {
        assert(logseq_blocks@.take(logseq_blocks@.len() as int) =~= logseq_blocks@);
    }
    Ok(block_ids)
}

/// Normalize a page name: lower-case it and replace spaces by underscores.
pub fn normalize_name(name: &str) -> (r: String)
    ensures
        r@ == spec_underscore(lower_of(name@)),
{
    let lowered = to_lowercase(name);
    let chars = string_to_chars(lowered.as_str());
    let mut out: Vec<char> = Vec::new();
    let mut i: usize = 0;
    while i < chars.len()
        invariant
            0 <= i <= chars@.len(),
            chars@ == lower_of(name@),
            out@ =~= spec_underscore(chars@.take(i as int)),
        decreases chars@.len() - i,
    {
        let c = chars[i];
        if c == ' ' {
            out.push('_');
        } else {
            out.push(c);
        }
        proof {
            assert(out@ =~= spec_underscore(chars@.take(i as int + 1)));
        }
        i = i + 1;
    }
    proof {
        assert(chars@.take(chars@.len() as int) =~= chars@);
    }
    chars_to_string(&out)
}

} // verus!
