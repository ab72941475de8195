//! The clang-format adapter: the data model for the tool's replacements
//! output, a verified parser for its replacements-XML format, and the
//! resolution and range-filtering of the parsed advice.

use vstd::prelude::*;

use crate::common_fs::{
    col_of_offset, get_line_cols_from_offset, line_of_offset, str_eq, FileObj, FileObjModel,
};
use crate::git::{files_view, match_at, spec_parse_num};

verus! {

/// The mathematical value of one [`Replacement`].
pub struct ReplacementModel {
    pub offset: int,
    pub length: int,
    pub value: Option<Seq<char>>,
    pub line: Option<int>,
    pub cols: Option<int>,
}

/// A single replacement that clang-format wants to make.
///
/// `offset` and `length` refer to the current, unmodified file content;
/// `line` and `cols` are not supplied by the tool and stay `None` until the
/// offset has been resolved against that content.
#[derive(Debug, PartialEq)]
pub struct Replacement {
    /// The byte offset where the replacement will start.
    pub offset: usize,

    /// The amount of bytes that will be removed.
    pub length: usize,

    /// The bytes (UTF-8 encoded) that will be added at the `offset` position.
    pub value: Option<String>,

    /// The 1-indexed line number described by `offset`, once resolved.
    pub line: Option<usize>,

    /// The 1-indexed column on that line described by `offset`, once resolved.
    pub cols: Option<usize>,
}

impl View for Replacement {
    type V = ReplacementModel;

    open spec fn view(&self) -> ReplacementModel {
        ReplacementModel {
            offset: self.offset as int,
            length: self.length as int,
            value: match self.value {
                Some(v) => Some(v@),
                None => None,
            },
            line: match self.line {
                Some(l) => Some(l as int),
                None => None,
            },
            cols: match self.cols {
                Some(c) => Some(c as int),
                None => None,
            },
        }
    }
}

impl Clone for Replacement {
    fn clone(&self) -> (res: Self)
        ensures
            res == *self,
    {
        Replacement {
            offset: self.offset,
            length: self.length,
            value: match &self.value {
                Some(v) => Some(v.clone()),
                None => None,
            },
            line: self.line,
            cols: self.cols,
        }
    }
}

/// The mathematical value of a [`FormatAdvice`]: the replacements in tool order.
pub open spec fn advice_model(replacements: Seq<Replacement>) -> Seq<ReplacementModel> {
    replacements.map_values(|r: Replacement| r@)
}

/// The parsed replacements clang-format proposed for one file, in the order
/// (offset ascending) the tool emitted them.
#[derive(Debug, PartialEq)]
pub struct FormatAdvice {
    /// The replacements clang-format wants to make.
    pub replacements: Vec<Replacement>,
}

impl View for FormatAdvice {
    type V = Seq<ReplacementModel>;

    open spec fn view(&self) -> Seq<ReplacementModel> {
        advice_model(self.replacements@)
    }
}

// ---------------------------------------------------------------------------
// The replacements-XML grammar.
// ---------------------------------------------------------------------------

/// XML whitespace.
pub open spec fn is_space(c: char) -> bool {
    c == ' ' || c == '\t' || c == '\n' || c == '\r'
}

/// The first non-whitespace position at or after `p`, or the length.
pub open spec fn skip_spaces(s: Seq<char>, p: int) -> int
    decreases s.len() - p,
{
    if p < 0 || p >= s.len() {
        s.len() as int
    } else if is_space(s[p]) {
        skip_spaces(s, p + 1)
    } else {
        p
    }
}

/// The first position at or after `p` holding `c`, or the length.
pub open spec fn find_char(s: Seq<char>, p: int, c: char) -> int
    decreases s.len() - p,
{
    if p < 0 || p >= s.len() {
        s.len() as int
    } else if s[p] == c {
        p
    } else {
        find_char(s, p + 1, c)
    }
}

/// The position after the first `?>` at or after `p`, or one past the length
/// when the prolog never ends.
pub open spec fn after_prolog_end(s: Seq<char>, p: int) -> int
    decreases s.len() - p,
{
    if p < 0 || p + 2 > s.len() {
        s.len() + 1int
    } else if s[p] == '?' && s[p + 1] == '>' {
        p + 2
    } else {
        after_prolog_end(s, p + 1)
    }
}

/// What a character entity stands for: the five predefined XML entities and
/// the numeric references clang-format emits for the control characters it
/// must escape. Anything else fails the parse.
pub open spec fn spec_entity(name: Seq<char>) -> Option<char> {
    if name == "lt"@ {
        Some('<')
    } else if name == "gt"@ {
        Some('>')
    } else if name == "amp"@ {
        Some('&')
    } else if name == "apos"@ {
        Some('\'')
    } else if name == "quot"@ {
        Some('"')
    } else if name == "#9"@ {
        Some('\t')
    } else if name == "#10"@ {
        Some('\n')
    } else if name == "#13"@ {
        Some('\r')
    } else {
        None
    }
}

/// The first position at or after `p` where element text stops: a `<` or an
/// entity's `&`, or the length.
pub open spec fn find_stop(s: Seq<char>, p: int) -> int
    decreases s.len() - p,
{
    if p < 0 || p >= s.len() {
        s.len() as int
    } else if s[p] == '<' || s[p] == '&' {
        p
    } else {
        find_stop(s, p + 1)
    }
}

/// Element text from `p` with entities decoded, accumulated onto `acc`,
/// ending at the `<` that closes it; an unterminated element or an unknown
/// entity fails.
pub open spec fn spec_content(s: Seq<char>, p: int, acc: Seq<char>) -> Option<(Seq<char>, int)>
    decreases s.len() - p,
{
    let q = find_stop(s, p);
    if q < p || q > s.len() {
        None
    } else {
        let acc2 = acc + s.subrange(p, q);
        if q >= s.len() {
            None
        } else if s[q] == '<' {
            Some((acc2, q))
        } else {
            let e = find_char(s, q, ';');
            if e >= s.len() || e + 1 <= p {
                None
            } else {
                match spec_entity(s.subrange(q + 1, e)) {
                    None => None,
                    Some(c) => spec_content(s, e + 1, acc2.push(c)),
                }
            }
        }
    }
}

/// A quoted decimal number `'123'` (either quote character): its value and
/// the position after the closing quote.
pub open spec fn spec_quoted_num(s: Seq<char>, p: int) -> Option<(int, int)> {
    if !(0 <= p < s.len() && (s[p] == '\'' || s[p] == '"')) {
        None
    } else {
        match spec_parse_num(s, p + 1) {
            None => None,
            Some((v, q)) => {
                if q < s.len() && s[q] == s[p] {
                    Some((v, q + 1))
                } else {
                    None
                }
            },
        }
    }
}

/// The `<replacement offset='..' length='..'>text</replacement>` elements
/// from `p` up to the closing `</replacements>` tag, accumulated onto `acc`.
/// An element's empty text stands for no replacement text at all.
pub open spec fn spec_parse_elements(
    s: Seq<char>,
    p: int,
    acc: Seq<ReplacementModel>,
) -> Option<Seq<ReplacementModel>>
    decreases s.len() - p,
{
    let q = skip_spaces(s, p);
    if q < p || q > s.len() {
        None
    } else if match_at(s, q, "</replacements>"@) {
        Some(acc)
    } else if match_at(s, q, "<replacement "@) {
        let a = skip_spaces(s, q + 13);
        if !match_at(s, a, "offset="@) {
            None
        } else {
            match spec_quoted_num(s, a + 7) {
                None => None,
                Some((off, b0)) => {
                    let b = skip_spaces(s, b0);
                    if !match_at(s, b, "length="@) {
                        None
                    } else {
                        match spec_quoted_num(s, b + 7) {
                            None => None,
                            Some((len, c0)) => {
                                if !(c0 < s.len() && s[c0] == '>') {
                                    None
                                } else {
                                    match spec_content(s, c0 + 1, Seq::empty()) {
                                        None => None,
                                        Some((text, d)) => {
                                            if !match_at(s, d, "</replacement>"@) {
                                                None
                                            } else {
                                                let next = d + 14;
                                                let m = ReplacementModel {
                                                    offset: off,
                                                    length: len,
                                                    value: if text.len() == 0 {
                                                        None
                                                    } else {
                                                        Some(text)
                                                    },
                                                    line: None,
                                                    cols: None,
                                                };
                                                if next <= p || next > s.len() {
                                                    None
                                                } else {
                                                    spec_parse_elements(s, next, acc.push(m))
                                                }
                                            }
                                        },
                                    }
                                }
                            },
                        }
                    }
                },
            }
        }
    } else {
        None
    }
}

fn skip_spaces_exec(s: &str, p: usize) -> (r: usize)
    ensures
        r == skip_spaces(s@, p as int),
        r <= s@.len(),
        p as int <= s@.len() ==> p <= r,
    decreases s@.len() - p as int,
{
    if p >= s.unicode_len() {
        s.unicode_len()
    } else {
        let c = s.get_char(p);
        if c == ' ' || c == '\t' || c == '\n' || c == '\r' {
            skip_spaces_exec(s, p + 1)
        } else {
            p
        }
    }
}

fn find_char_exec(s: &str, p: usize, c: char) -> (r: usize)
    ensures
        r == find_char(s@, p as int, c),
        r <= s@.len(),
        p as int <= s@.len() ==> p <= r,
    decreases s@.len() - p as int,
{
    if p >= s.unicode_len() {
        s.unicode_len()
    } else if s.get_char(p) == c {
        p
    } else {
        find_char_exec(s, p + 1, c)
    }
}

fn after_prolog_exec(s: &str, p: usize) -> (r: Option<usize>)
    ensures
        match r {
            Some(q) => q == after_prolog_end(s@, p as int) && q <= s@.len(),
            None => after_prolog_end(s@, p as int) > s@.len(),
        },
    decreases s@.len() - p as int,
{
    let n = s.unicode_len();
    if p >= n || n - p < 2 {
        None
    } else if s.get_char(p) == '?' && s.get_char(p + 1) == '>' {
        Some(p + 2)
    } else {
        after_prolog_exec(s, p + 1)
    }
}

proof fn lemma_find_char_bounds(s: Seq<char>, from: int, c: char)
    requires
        0 <= from,
    ensures
        find_char(s, from, c) <= s.len(),
        from <= s.len() ==> from <= find_char(s, from, c),
    decreases s.len() - from,
{
    if from < s.len() && s[from] != c {
        lemma_find_char_bounds(s, from + 1, c);
    }
}

fn find_stop_exec(s: &str, p: usize) -> (r: usize)
    ensures
        r == find_stop(s@, p as int),
        r <= s@.len(),
        p as int <= s@.len() ==> p <= r,
        r < s@.len() ==> s@[r as int] == '<' || s@[r as int] == '&',
    decreases s@.len() - p as int,
{
    if p >= s.unicode_len() {
        s.unicode_len()
    } else {
        let c = s.get_char(p);
        if c == '<' || c == '&' {
            p
        } else {
            find_stop_exec(s, p + 1)
        }
    }
}

fn entity_str(name: &str) -> (r: Option<&'static str>)
    ensures
        match (r, spec_entity(name@)) {
            (Some(t), Some(c)) => t@ == seq![c],
            (None, None) => true,
            _ => false,
        },
{
    proof {
        reveal_strlit("lt");
        reveal_strlit("gt");
        reveal_strlit("amp");
        reveal_strlit("apos");
        reveal_strlit("quot");
        reveal_strlit("#9");
        reveal_strlit("#10");
        reveal_strlit("#13");
        reveal_strlit("<");
        reveal_strlit(">");
        reveal_strlit("&");
        reveal_strlit("'");
        reveal_strlit("\"");
        reveal_strlit("\t");
        reveal_strlit("\n");
        reveal_strlit("\r");
    }
    if str_eq(name, "lt") {
        Some("<")
    } else if str_eq(name, "gt") {
        Some(">")
    } else if str_eq(name, "amp") {
        Some("&")
    } else if str_eq(name, "apos") {
        Some("'")
    } else if str_eq(name, "quot") {
        Some("\"")
    } else if str_eq(name, "#9") {
        Some("\t")
    } else if str_eq(name, "#10") {
        Some("\n")
    } else if str_eq(name, "#13") {
        Some("\r")
    } else {
        None
    }
}

fn parse_content(s: &str, p: usize, out: &mut String) -> (r: Option<usize>)
    ensures
        match r {
            Some(q) => spec_content(s@, p as int, old(out)@) == Some((final(out)@, q as int))
                && q <= s@.len(),
            None => spec_content(s@, p as int, old(out)@) is None,
        },
    decreases s@.len() - p as int,
{
    let n = s.unicode_len();
    let q = find_stop_exec(s, p);
    if p > n || q < p {
        return None;
    }
    let run = s.substring_char(p, q);
    out.append(run);
    if q >= n {
        return None;
    }
    if s.get_char(q) == '<' {
        return Some(q);
    }
    let e = find_char_exec(s, q, ';');
    if e >= n || e + 1 <= p {
        return None;
    }
    proof {
        assert(find_char(s@, q as int, ';') == find_char(s@, q + 1, ';'));
        lemma_find_char_bounds(s@, q + 1, ';');
    }
    let name = s.substring_char(q + 1, e);
    match entity_str(name) {
        None => None,
        Some(t) => {
            out.append(t);
            proof {
                assert(out@ =~= (old(out)@ + s@.subrange(p as int, q as int)).push(
                    spec_entity(s@.subrange(q + 1, e as int)).unwrap(),
                ));
            }
            parse_content(s, e + 1, out)
        },
    }
}

fn quoted_num_exec(s: &str, p: usize) -> (r: Option<(u64, usize)>)
    ensures
        match r {
            Some((v, next)) => {
                &&& spec_quoted_num(s@, p as int) == Some((v as int, next as int))
                &&& v <= u32::MAX
                &&& next <= s@.len()
            },
            None => spec_quoted_num(s@, p as int) is None,
        },
{
    let n = s.unicode_len();
    if p >= n {
        return None;
    }
    let quote = s.get_char(p);
    if quote != '\'' && quote != '"' {
        return None;
    }
    match crate::git::parse_num_exec(s, p + 1) {
        None => None,
        Some((v, q)) => {
            if q < n && s.get_char(q) == quote {
                Some((v, q + 1))
            } else {
                None
            }
        },
    }
}

fn parse_elements(s: &str, p: usize, acc: &mut Vec<Replacement>) -> (ok: bool)
    ensures
        ({
            let res = spec_parse_elements(s@, p as int, advice_model(old(acc)@));
            if ok {
                res == Some(advice_model(final(acc)@))
            } else {
                res is None
            }
        }),
    decreases s@.len() - p as int,
{
    let n = s.unicode_len();
    let q = skip_spaces_exec(s, p);
    if p > n || q < p {
        return false;
    }
    if crate::git::match_at_exec(s, q, "</replacements>") {
        return true;
    }
    if !crate::git::match_at_exec(s, q, "<replacement ") {
        return false;
    }
    proof {
        reveal_strlit("<replacement ");
        assert(q + 13 <= n);
    }
    let a = skip_spaces_exec(s, q + 13);
    if !crate::git::match_at_exec(s, a, "offset=") {
        return false;
    }
    proof {
        reveal_strlit("offset=");
        assert(a + 7 <= n);
    }
    let (off, b0) = match quoted_num_exec(s, a + 7) {
        None => {
            return false;
        },
        Some(x) => x,
    };
    let b = skip_spaces_exec(s, b0);
    if !crate::git::match_at_exec(s, b, "length=") {
        return false;
    }
    proof {
        reveal_strlit("length=");
        assert(b + 7 <= n);
    }
    let (len, c0) = match quoted_num_exec(s, b + 7) {
        None => {
            return false;
        },
        Some(x) => x,
    };
    if !(c0 < n && s.get_char(c0) == '>') {
        return false;
    }
    let mut text = String::new();
    let d = match parse_content(s, c0 + 1, &mut text) {
        None => {
            return false;
        },
        Some(x) => x,
    };
    if !crate::git::match_at_exec(s, d, "</replacement>") {
        return false;
    }
    proof {
        reveal_strlit("</replacement>");
        assert(d + 14 <= n);
    }
    let next = d + 14;
    if next <= p {
        return false;
    }
    let rep = Replacement {
        offset: off as usize,
        length: len as usize,
        value: if text.unicode_len() == 0 {
            None
        } else {
            Some(text)
        },
        line: None,
        cols: None,
    };
    let ghost old_acc = acc@;
    let ghost rep_model = rep@;
    acc.push(rep);
    proof {
        assert(advice_model(acc@) =~= advice_model(old_acc).push(rep_model));
    }
    parse_elements(s, next, acc)
}

/// Parse clang-format's replacements-XML document into advice, or nothing
/// when the document does not fit the tool's output shape.
pub fn parse_replacements_xml(xml: &str) -> (r: Option<FormatAdvice>)
    ensures
        match r {
            Some(advice) => spec_parse_replacements_xml(xml@) == Some(advice@),
            None => spec_parse_replacements_xml(xml@) is None,
        },
{
    let n = xml.unicode_len();
    let p0 = skip_spaces_exec(xml, 0);
    let p1 = if crate::git::match_at_exec(xml, p0, "<?") {
        match after_prolog_exec(xml, p0) {
            None => {
                return None;
            },
            Some(q) => q,
        }
    } else {
        p0
    };
    let p2 = skip_spaces_exec(xml, p1);
    if !crate::git::match_at_exec(xml, p2, "<replacements") {
        return None;
    }
    let g = find_char_exec(xml, p2, '>');
    if g >= n {
        return None;
    }
    let mut replacements: Vec<Replacement> = Vec::new();
    proof {
        assert(advice_model(replacements@) =~= Seq::<ReplacementModel>::empty());
    }
    if parse_elements(xml, g + 1, &mut replacements) {
        Some(FormatAdvice { replacements })
    } else {
        None
    }
}

/// The parse of clang-format's whole replacements document: an optional XML
/// prolog, the `<replacements ...>` root, its elements, and the closing tag.
pub open spec fn spec_parse_replacements_xml(s: Seq<char>) -> Option<Seq<ReplacementModel>> {
    let p0 = skip_spaces(s, 0);
    let p1 = if match_at(s, p0, "<?"@) {
        after_prolog_end(s, p0)
    } else {
        p0
    };
    if p1 > s.len() {
        None
    } else {
        let p2 = skip_spaces(s, p1);
        if !match_at(s, p2, "<replacements"@) {
            None
        } else {
            let g = find_char(s, p2, '>');
            if g >= s.len() {
                None
            } else {
                spec_parse_elements(s, g + 1, Seq::empty())
            }
        }
    }
}

// ---------------------------------------------------------------------------
// Resolving offsets and filtering advice to the changed ranges.
// ---------------------------------------------------------------------------

/// True when `line` falls inside one of the closed ranges.
pub open spec fn line_in_ranges(line: int, ranges: Seq<(u64, u64)>) -> bool {
    exists|i: int| 0 <= i < ranges.len() && (#[trigger] ranges[i]).0 <= line <= ranges[i].1
}

/// Whether an advice item whose offset resolved to `line` survives the range
/// filter: always when filtering is disabled (an empty ranges list), and
/// otherwise exactly when the line lies in some range.
pub open spec fn spec_retained(line: int, ranges: Seq<(u64, u64)>) -> bool {
    ranges.len() == 0 || line_in_ranges(line, ranges)
}

/// The replacement with its line and column derived from its offset.
pub open spec fn spec_resolve(m: ReplacementModel, content: Seq<u8>) -> ReplacementModel {
    ReplacementModel {
        offset: m.offset,
        length: m.length,
        value: m.value,
        line: Some(line_of_offset(content, m.offset)),
        cols: Some(col_of_offset(content, m.offset)),
    }
}

/// The pipeline over one file's parsed advice: each item's offset is resolved
/// against the file's current content, an item whose offset lies outside the
/// content is dropped (an invalid offset is recovered per item), and the rest
/// are kept, in order, exactly when retained by the range filter.
pub open spec fn spec_process(
    models: Seq<ReplacementModel>,
    content: Seq<u8>,
    ranges: Seq<(u64, u64)>,
) -> Seq<ReplacementModel>
    decreases models.len(),
{
    if models.len() == 0 {
        Seq::empty()
    } else {
        let init = spec_process(models.drop_last(), content, ranges);
        let m = models.last();
        if m.offset > content.len() {
            init
        } else if spec_retained(line_of_offset(content, m.offset), ranges) {
            init.push(spec_resolve(m, content))
        } else {
            init
        }
    }
}

fn line_retained(line: usize, ranges: &Vec<(u64, u64)>) -> (r: bool)
    ensures
        r == spec_retained(line as int, ranges@),
{
    if ranges.len() == 0 {
        return true;
    }
    let mut j: usize = 0;
    while j < ranges.len()
        invariant
            j <= ranges@.len(),
            forall|k: int| 0 <= k < j ==> !((#[trigger] ranges@[k]).0 <= line <= ranges@[k].1),
        decreases ranges@.len() - j,
    {
        let (lo, hi) = ranges[j];
        if lo <= line as u64 && line as u64 <= hi {
            proof {
                assert(ranges@[j as int].0 <= line as int <= ranges@[j as int].1);
            }
            return true;
        }
        j += 1;
    }
    false
}

/// Resolve each replacement's offset to a line and column against the file's
/// current content and keep, in tool order, exactly those the range filter
/// retains; an offset beyond the content is dropped as an invalid offset.
pub fn process_format_replacements(
    advice: FormatAdvice,
    content: &[u8],
    ranges: &Vec<(u64, u64)>,
) -> (r: FormatAdvice)
    requires
        content@.len() < usize::MAX,
    ensures
        r@ == spec_process(advice@, content@, ranges@),
{
    let rest = advice.replacements;
    let mut out: Vec<Replacement> = Vec::new();
    let mut i: usize = 0;
    proof {
        assert(advice_model(out@) =~= spec_process(
            advice_model(rest@).take(0),
            content@,
            ranges@,
        ));
    }
    while i < rest.len()
        invariant
            i <= rest@.len(),
            content@.len() < usize::MAX,
            advice_model(out@) == spec_process(advice_model(rest@).take(i as int), content@, ranges@),
        decreases rest@.len() - i,
    {
        let ghost pre = advice_model(rest@).take(i + 1);
        proof {
            assert(pre.drop_last() =~= advice_model(rest@).take(i as int));
            assert(pre.last() == rest@[i as int]@);
        }
        let item = &rest[i];
        if item.offset <= content.len() {
            match get_line_cols_from_offset(content, item.offset) {
                Ok((line, cols)) => {
                    if line_retained(line, ranges) {
                        let ghost old_out = out@;
                        out.push(
                            Replacement {
                                offset: item.offset,
                                length: item.length,
                                value: match &item.value {
                                    Some(v) => Some(v.clone()),
                                    None => None,
                                },
                                line: Some(line),
                                cols: Some(cols),
                            },
                        );
                        proof {
                            assert(advice_model(out@) =~= advice_model(old_out).push(
                                spec_resolve(rest@[i as int]@, content@),
                            ));
                        }
                    }
                },
                Err(_) => {
                    proof {
                        assert(false);
                    }
                },
            }
        }
        i += 1;
    }
    proof {
        assert(advice_model(rest@).take(rest@.len() as int) =~= advice_model(rest@));
        assert(advice_model(rest@) =~= advice@);
    }
    FormatAdvice { replacements: out }
}

/// With range filtering disabled every advice item whose offset lies in the
/// content is retained, unchanged but for its derived line and column.
pub proof fn lemma_ranges_disabled_keeps_all(
    models: Seq<ReplacementModel>,
    content: Seq<u8>,
    ranges: Seq<(u64, u64)>,
)
    requires
        ranges.len() == 0,
        forall|i: int| 0 <= i < models.len() ==> (#[trigger] models[i]).offset <= content.len(),
    ensures
        spec_process(models, content, ranges) == models.map_values(
            |m: ReplacementModel| spec_resolve(m, content),
        ),
    decreases models.len(),
{
    if models.len() > 0 {
        lemma_ranges_disabled_keeps_all(models.drop_last(), content, ranges);
        assert(models.map_values(|m: ReplacementModel| spec_resolve(m, content))
            =~= models.drop_last().map_values(|m: ReplacementModel| spec_resolve(m, content)).push(
            spec_resolve(models.last(), content),
        ));
    } else {
        assert(models.map_values(|m: ReplacementModel| spec_resolve(m, content))
            =~= Seq::<ReplacementModel>::empty());
    }
}

/// With a non-empty ranges list an in-bounds advice item is retained if and
/// only if its resolved line lies in some range.
pub proof fn lemma_filter_retains_iff(m: ReplacementModel, content: Seq<u8>, ranges: Seq<(u64, u64)>)
    requires
        m.offset <= content.len(),
        ranges.len() > 0,
    ensures
        spec_process(seq![m], content, ranges) == if line_in_ranges(
            line_of_offset(content, m.offset),
            ranges,
        ) {
            seq![spec_resolve(m, content)]
        } else {
            Seq::<ReplacementModel>::empty()
        },
{
    assert(seq![m].drop_last() =~= Seq::<ReplacementModel>::empty());
    assert(spec_process(Seq::<ReplacementModel>::empty(), content, ranges)
        == Seq::<ReplacementModel>::empty());
    assert(seq![m].last() == m);
    if line_in_ranges(line_of_offset(content, m.offset), ranges) {
        assert(spec_process(seq![m], content, ranges) == Seq::<ReplacementModel>::empty().push(
            spec_resolve(m, content),
        ));
        assert(Seq::<ReplacementModel>::empty().push(spec_resolve(m, content)) =~= seq![
            spec_resolve(m, content),
        ]);
    }
}

// ---------------------------------------------------------------------------
// Tallying.
// ---------------------------------------------------------------------------

/// How many files carry at least one retained replacement.
pub open spec fn spec_tally(files: Seq<FileObjModel>) -> int
    decreases files.len(),
{
    if files.len() == 0 {
        0
    } else {
        spec_tally(files.drop_last()) + match files.last().format_advice {
            Some(a) => if a.len() > 0 {
                1int
            } else {
                0int
            },
            None => 0int,
        }
    }
}

/// Get a total count of clang-format advice from the given list of files:
/// the number of files whose advice holds at least one replacement.
pub fn tally_format_advice(files: &Vec<FileObj>) -> (r: u64)
    ensures
        r == spec_tally(files_view(files@)),
{
    let mut total: u64 = 0;
    let mut i: usize = 0;
    proof {
        assert(files_view(files@).take(0) =~= Seq::<FileObjModel>::empty());
    }
    while i < files.len()
        invariant
            i <= files@.len(),
            total <= i,
            total == spec_tally(files_view(files@).take(i as int)),
        decreases files@.len() - i,
    {
        let ghost pre = files_view(files@).take(i + 1);
        proof {
            assert(pre.drop_last() =~= files_view(files@).take(i as int));
            assert(pre.last() == files@[i as int]@);
        }
        match &files[i].format_advice {
            Some(advice) => {
                if advice.replacements.len() > 0 {
                    total = total + 1;
                }
            },
            None => {},
        }
        i += 1;
    }
    proof {
        assert(files_view(files@).take(files@.len() as int) =~= files_view(files@));
    }
    total
}

} // verus!
