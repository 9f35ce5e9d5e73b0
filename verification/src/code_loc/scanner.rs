//! Classifying the lines of a file as code, comment or empty.
use vstd::prelude::*;
use vstd::string::*;

use crate::config::CommentStyle;
use crate::line_slices::{LineSlices, lines_of, lemma_lines_from_len, lemma_line_within};
use super::types::LocMetrics;

verus! {

/// ASCII whitespace: space, tab, line feed, form feed, carriage return.
pub open spec fn is_ascii_ws(b: u8) -> bool {
    b == 32u8 || b == 9u8 || b == 10u8 || b == 12u8 || b == 13u8
}

pub fn is_ascii_whitespace_byte(b: u8) -> (r: bool)
    ensures
        r == is_ascii_ws(b),
{
    b == 32u8 || b == 9u8 || b == 10u8 || b == 12u8 || b == 13u8
}

/// The bytes of an optional delimiter.
pub open spec fn token_bytes(t: Option<&'static str>) -> Option<Seq<u8>> {
    match t {
        Some(s) => Some(s.spec_bytes()),
        None => None,
    }
}

/// `token` occurs in `line` at position `i` (an empty token occurs at
/// every position).
pub open spec fn token_at(line: Seq<u8>, i: int, token: Option<Seq<u8>>) -> bool {
    match token {
        Some(t) => 0 <= i && i + t.len() <= line.len() && line.subrange(i, i + t.len()) == t,
        None => false,
    }
}

/// The three delimiters of a style, as bytes.
pub struct Tokens {
    pub single: Option<Seq<u8>>,
    pub start: Option<Seq<u8>>,
    pub end: Option<Seq<u8>>,
}

pub open spec fn style_tokens(style: CommentStyle) -> Tokens {
    Tokens {
        single: token_bytes(style.single_line),
        start: token_bytes(style.multi_line_start),
        end: token_bytes(style.multi_line_end),
    }
}

/// What starts at a position outside any block comment.
#[derive(Clone, Copy)]
pub enum CommentStartMatch {
    SingleLine,
    MultiLine(usize),
}

/// Which comment (if any) starts at position `i`: a block comment wins when
/// its opener is at least as long as the line-comment marker that also
/// matches.
pub open spec fn comment_start_at(line: Seq<u8>, i: int, tok: Tokens) -> Option<CommentStartMatch> {
    let single = token_at(line, i, tok.single);
    let multi = token_at(line, i, tok.start);
    if single && multi {
        if tok.start->0.len() >= tok.single->0.len() {
            Some(CommentStartMatch::MultiLine(tok.start->0.len() as usize))
        } else {
            Some(CommentStartMatch::SingleLine)
        }
    } else if single {
        Some(CommentStartMatch::SingleLine)
    } else if multi {
        Some(CommentStartMatch::MultiLine(tok.start->0.len() as usize))
    } else {
        None
    }
}

/// The state after scanning `line` from position `i`: block-comment depth,
/// whether code was seen, whether a comment was seen.
pub open spec fn scan_line(line: Seq<u8>, tok: Tokens, depth: nat, i: int, code: bool, comment: bool) -> (
    nat,
    bool,
    bool,
)
    decreases line.len() - i, depth,
{
    if i < 0 || i >= line.len() {
        (depth, code, comment)
    } else if depth > 0 {
        if token_at(line, i, tok.end) {
            scan_line(line, tok, (depth - 1) as nat, i + tok.end->0.len(), code, true)
        } else if tok.start != tok.end && token_at(line, i, tok.start) && tok.start->0.len() > 0 {
            scan_line(line, tok, depth + 1, i + tok.start->0.len(), code, true)
        } else if is_ascii_ws(line[i]) {
            scan_line(line, tok, depth, i + 1, code, comment)
        } else {
            scan_line(line, tok, depth, i + 1, code, true)
        }
    } else if is_ascii_ws(line[i]) {
        scan_line(line, tok, depth, i + 1, code, comment)
    } else {
        match comment_start_at(line, i, tok) {
            Some(CommentStartMatch::SingleLine) => (depth, code, true),
            Some(CommentStartMatch::MultiLine(len)) => {
                if len > 0 {
                    scan_line(line, tok, 1, i + len, code, true)
                } else {
                    (depth, code, comment)
                }
            },
            None => scan_line(line, tok, depth, i + 1, true, comment),
        }
    }
}

/// Counts of code, comment and empty lines.
pub struct LineCounts {
    pub code: nat,
    pub comment: nat,
    pub empty: nat,
}

pub open spec fn counts_add(a: LineCounts, b: LineCounts) -> LineCounts {
    LineCounts { code: a.code + b.code, comment: a.comment + b.comment, empty: a.empty + b.empty }
}

/// The counts of one line given what scanning it found.
pub open spec fn line_kind_counts(code: bool, comment: bool) -> LineCounts {
    if code {
        LineCounts { code: 1, comment: 0, empty: 0 }
    } else if comment {
        LineCounts { code: 0, comment: 1, empty: 0 }
    } else {
        LineCounts { code: 0, comment: 0, empty: 1 }
    }
}

/// Counts of `lines`, scanned in order with block-comment depth carried from
/// line to line, starting at `depth`.
pub open spec fn scan_lines(lines: Seq<Seq<u8>>, tok: Tokens, depth: nat) -> LineCounts
    decreases lines.len(),
{
    if lines.len() == 0 {
        LineCounts { code: 0, comment: 0, empty: 0 }
    } else {
        let (d, code, comment) = scan_line(lines[0], tok, depth, 0, false, false);
        counts_add(line_kind_counts(code, comment), scan_lines(lines.drop_first(), tok, d))
    }
}

/// A line of only whitespace.
pub open spec fn is_blank(line: Seq<u8>) -> bool {
    forall|k: int| 0 <= k < line.len() ==> is_ascii_ws(#[trigger] line[k])
}

/// Counts of `lines` for a language without comments: blank lines are empty,
/// all others code.
pub open spec fn commentless_counts(lines: Seq<Seq<u8>>) -> LineCounts
    decreases lines.len(),
{
    if lines.len() == 0 {
        LineCounts { code: 0, comment: 0, empty: 0 }
    } else {
        counts_add(
            line_kind_counts(!is_blank(lines[0]), false),
            commentless_counts(lines.drop_first()),
        )
    }
}

/// The line counts of `bytes` in `style`.
pub open spec fn content_counts(bytes: Seq<u8>, style: CommentStyle) -> LineCounts {
    if bytes.len() == 0 {
        LineCounts { code: 0, comment: 0, empty: 0 }
    } else if style.spec_is_commentless() {
        commentless_counts(lines_of(bytes))
    } else {
        scan_lines(lines_of(bytes), style_tokens(style), 0)
    }
}

pub proof fn lemma_counts_total(lines: Seq<Seq<u8>>, tok: Tokens, depth: nat)
    ensures
        ({
            let c = scan_lines(lines, tok, depth);
            c.code + c.comment + c.empty == lines.len()
        }),
    decreases lines.len(),
{
    if lines.len() > 0 {
        let (d, code, comment) = scan_line(lines[0], tok, depth, 0, false, false);
        lemma_counts_total(lines.drop_first(), tok, d);
    }
}

pub proof fn lemma_commentless_total(lines: Seq<Seq<u8>>)
    ensures
        ({
            let c = commentless_counts(lines);
            c.code + c.comment + c.empty == lines.len() && c.comment == 0
        }),
    decreases lines.len(),
{
    if lines.len() > 0 {
        lemma_commentless_total(lines.drop_first());
    }
}

/// Once a line has shown code it stays a code line, whatever follows on
/// it: a comment after code never turns the line into a comment line.
pub proof fn law_code_is_never_undone(line: Seq<u8>, tok: Tokens, depth: nat, i: int, comment: bool)
    ensures
        scan_line(line, tok, depth, i, true, comment).1,
    decreases line.len() - i, depth,
{
    if 0 <= i < line.len() {
        if depth > 0 {
            if token_at(line, i, tok.end) {
                law_code_is_never_undone(line, tok, (depth - 1) as nat, i + tok.end->0.len(), true);
            } else if tok.start != tok.end && token_at(line, i, tok.start) && tok.start->0.len() > 0 {
                law_code_is_never_undone(line, tok, depth + 1, i + tok.start->0.len(), true);
            } else {
                law_code_is_never_undone(line, tok, depth, i + 1, comment || !is_ascii_ws(line[i]));
            }
        } else if is_ascii_ws(line[i]) {
            law_code_is_never_undone(line, tok, depth, i + 1, comment);
        } else {
            match comment_start_at(line, i, tok) {
                Some(CommentStartMatch::SingleLine) => {},
                Some(CommentStartMatch::MultiLine(len)) => {
                    if len > 0 {
                        law_code_is_never_undone(line, tok, 1, i + len, true);
                    }
                },
                None => law_code_is_never_undone(line, tok, depth, i + 1, comment),
            }
        }
    }
}

proof fn lemma_skip_blank_prefix(line: Seq<u8>, tok: Tokens, i: int, j: int)
    requires
        0 <= i <= j < line.len(),
        forall|k: int| i <= k < j ==> is_ascii_ws(#[trigger] line[k]),
    ensures
        scan_line(line, tok, 0, i, false, false) == scan_line(line, tok, 0, j, false, false),
    decreases j - i,
{
    if i < j {
        lemma_skip_blank_prefix(line, tok, i + 1, j);
    }
}

/// Outside a block comment, a line whose first non-blank byte starts
/// neither a line comment nor a block comment is a code line, whatever
/// comes after on it (a trailing comment included).
pub proof fn law_code_line_with_trailing_comment(line: Seq<u8>, tok: Tokens, j: int)
    requires
        0 <= j < line.len(),
        forall|k: int| 0 <= k < j ==> is_ascii_ws(#[trigger] line[k]),
        !is_ascii_ws(line[j]),
        !token_at(line, j, tok.single),
        !token_at(line, j, tok.start),
    ensures
        scan_line(line, tok, 0, 0, false, false).1,
        line_kind_counts(scan_line(line, tok, 0, 0, false, false).1, scan_line(line, tok, 0, 0, false, false).2)
            == (LineCounts { code: 1, comment: 0, empty: 0 }),
{
    lemma_skip_blank_prefix(line, tok, 0, j);
    law_code_is_never_undone(line, tok, 0, j + 1, false);
}

/// Outside a block comment, a line whose first non-blank byte starts a
/// line comment (and no block comment) is a comment line, and the block
/// depth stays zero.
pub proof fn law_line_comment_line(line: Seq<u8>, tok: Tokens, j: int)
    requires
        0 <= j < line.len(),
        forall|k: int| 0 <= k < j ==> is_ascii_ws(#[trigger] line[k]),
        !is_ascii_ws(line[j]),
        token_at(line, j, tok.single),
        !token_at(line, j, tok.start),
    ensures
        scan_line(line, tok, 0, 0, false, false) == (0nat, false, true),
        line_kind_counts(false, true) == (LineCounts { code: 0, comment: 1, empty: 0 }),
{
    lemma_skip_blank_prefix(line, tok, 0, j);
}

/// Outside a block comment, a line of only whitespace is an empty line.
pub proof fn law_blank_line(line: Seq<u8>, tok: Tokens, i: int)
    requires
        0 <= i <= line.len(),
        forall|k: int| i <= k < line.len() ==> is_ascii_ws(#[trigger] line[k]),
    ensures
        scan_line(line, tok, 0, i, false, false) == (0nat, false, false),
        line_kind_counts(false, false) == (LineCounts { code: 0, comment: 0, empty: 1 }),
    decreases line.len() - i,
{
    if i < line.len() {
        law_blank_line(line, tok, i + 1);
    }
}

/// Counting a buffer in a style with comments, at the start of the buffer:
/// a first line whose first non-blank byte starts no comment counts as
/// code, so the buffer has at least one code line.
pub proof fn law_first_code_line_counts(bytes: Seq<u8>, style: CommentStyle, j: int)
    requires
        bytes.len() > 0,
        !style.spec_is_commentless(),
        lines_of(bytes).len() > 0,
        0 <= j < lines_of(bytes)[0].len(),
        forall|k: int| 0 <= k < j ==> is_ascii_ws(#[trigger] lines_of(bytes)[0][k]),
        !is_ascii_ws(lines_of(bytes)[0][j]),
        !token_at(lines_of(bytes)[0], j, style_tokens(style).single),
        !token_at(lines_of(bytes)[0], j, style_tokens(style).start),
    ensures
        content_counts(bytes, style).code >= 1,
{
    let lines = lines_of(bytes);
    let tok = style_tokens(style);
    law_code_line_with_trailing_comment(lines[0], tok, j);
    let (d, code, comment) = scan_line(lines[0], tok, 0, 0, false, false);
    assert(scan_lines(lines, tok, 0) == counts_add(line_kind_counts(code, comment), scan_lines(lines.drop_first(), tok, d)));
}

/// Every line is counted exactly once: the three counts of a scan add up to
/// the number of lines in the buffer, whatever the comment style.
pub proof fn law_every_line_counted_once(bytes: Seq<u8>, style: CommentStyle)
    ensures
        ({
            let c = content_counts(bytes, style);
            c.code + c.comment + c.empty == lines_of(bytes).len()
        }),
{
    if bytes.len() == 0 {
        assert(lines_of(bytes) =~= Seq::<Seq<u8>>::empty());
    } else if style.spec_is_commentless() {
        lemma_commentless_total(lines_of(bytes));
    } else {
        lemma_counts_total(lines_of(bytes), style_tokens(style), 0);
    }
}

/// `tok` occurs in `line` at position `at`.
fn bytes_at(line: &[u8], at: usize, tok: &[u8]) -> (r: bool)
    ensures
        r == (at + tok@.len() <= line@.len() && line@.subrange(at as int, at + tok@.len()) == tok@),
{
    if tok.len() > line.len() || at > line.len() - tok.len() {
        return false;
    }
    let n = line.len();
    let mut k: usize = 0;
    while k < tok.len()
        invariant
            n == line@.len(),
            at + tok@.len() <= line@.len(),
            k <= tok@.len(),
            forall|j: int| 0 <= j < k ==> line@[at + j] == tok@[j],
        decreases tok@.len() - k,
    {
        if line[at + k] != tok[k] {
            assert(line@.subrange(at as int, at + tok@.len())[k as int] != tok@[k as int]);
            return false;
        }
        k = k + 1;
    }
    assert(line@.subrange(at as int, at + tok@.len()) =~= tok@);
    true
}

/// Whether the optional token occurs at `at`.
fn opt_token_at(line: &[u8], at: usize, tok: Option<&[u8]>) -> (r: bool)
    ensures
        r == token_at(line@, at as int, opt_view(tok)),
{
    match tok {
        Some(t) => bytes_at(line, at, t),
        None => false,
    }
}

pub open spec fn opt_view(t: Option<&[u8]>) -> Option<Seq<u8>> {
    match t {
        Some(s) => Some(s@),
        None => None,
    }
}

/// The delimiters of a style as byte slices.
#[derive(Clone, Copy)]
struct CommentTokens<'a> {
    single_line: Option<&'a [u8]>,
    multi_line_start: Option<&'a [u8]>,
    multi_line_end: Option<&'a [u8]>,
}

spec fn tokens_view(t: CommentTokens) -> Tokens {
    Tokens {
        single: opt_view(t.single_line),
        start: opt_view(t.multi_line_start),
        end: opt_view(t.multi_line_end),
    }
}

fn opt_bytes(t: Option<&'static str>) -> (r: Option<&'static [u8]>)
    ensures
        opt_view(r) == token_bytes(t),
{
    match t {
        Some(s) => Some(s.as_bytes()),
        None => None,
    }
}

fn tokens_of(style: &CommentStyle) -> (r: CommentTokens<'static>)
    ensures
        tokens_view(r) == style_tokens(*style),
        (r.single_line is None && r.multi_line_start is None && r.multi_line_end is None)
            == style.spec_is_commentless(),
{
    CommentTokens {
        single_line: opt_bytes(style.single_line),
        multi_line_start: opt_bytes(style.multi_line_start),
        multi_line_end: opt_bytes(style.multi_line_end),
    }
}

fn opt_slices_equal(a: Option<&[u8]>, b: Option<&[u8]>) -> (r: bool)
    ensures
        r == (opt_view(a) == opt_view(b)),
{
    match (a, b) {
        (None, None) => true,
        (Some(x), Some(y)) => {
            if x.len() != y.len() {
                return false;
            }
            let same = bytes_at(x, 0, y);
            proof {
                assert(x@.subrange(0, y@.len() as int) =~= x@);
            }
            same
        },
        _ => false,
    }
}

fn match_comment_start(line: &[u8], at: usize, tokens: CommentTokens) -> (r: Option<CommentStartMatch>)
    ensures
        r == comment_start_at(line@, at as int, tokens_view(tokens)),
{
    let single = opt_token_at(line, at, tokens.single_line);
    let multi = opt_token_at(line, at, tokens.multi_line_start);
    if single && multi {
        let s = tokens.single_line.unwrap();
        let m = tokens.multi_line_start.unwrap();
        if m.len() >= s.len() {
            Some(CommentStartMatch::MultiLine(m.len()))
        } else {
            Some(CommentStartMatch::SingleLine)
        }
    } else if single {
        Some(CommentStartMatch::SingleLine)
    } else if multi {
        Some(CommentStartMatch::MultiLine(tokens.multi_line_start.unwrap().len()))
    } else {
        None
    }
}

/// Scans one line from block-comment depth `*depth`, updates the depth and
/// counts the line in `metrics`.
fn classify_line(line: &[u8], tokens: CommentTokens, depth: &mut usize, metrics: &mut LocMetrics)
    requires
        tokens.multi_line_start matches Some(t) ==> t@.len() > 0,
        *old(depth) + line@.len() <= usize::MAX,
        old(metrics).code_lines + old(metrics).comment_lines + old(metrics).empty_lines < u64::MAX,
    ensures
        ({
            let (d, code, comment) = scan_line(line@, tokens_view(tokens), *old(depth) as nat, 0, false, false);
            let k = line_kind_counts(code, comment);
            &&& *final(depth) == d
            &&& final(metrics).code_lines == old(metrics).code_lines + k.code
            &&& final(metrics).comment_lines == old(metrics).comment_lines + k.comment
            &&& final(metrics).empty_lines == old(metrics).empty_lines + k.empty
            &&& final(metrics).size_bytes == old(metrics).size_bytes
        }),
        *final(depth) <= *old(depth) + line@.len(),
{
    let ghost tok = tokens_view(tokens);
    let ghost d0 = *depth;
    let identical = opt_slices_equal(tokens.multi_line_start, tokens.multi_line_end);
    let mut has_code = false;
    let mut has_comment = false;
    let mut index: usize = 0;
    let ghost target = scan_line(line@, tok, d0 as nat, 0, false, false);
    while index < line.len()
        invariant
            index <= line@.len(),
            *depth <= d0 + index,
            d0 + line@.len() <= usize::MAX,
            identical == (tok.start == tok.end),
            tok == tokens_view(tokens),
            tokens.multi_line_start matches Some(t) ==> t@.len() > 0,
            scan_line(line@, tok, *depth as nat, index as int, has_code, has_comment) == target,
        ensures
            scan_line(line@, tok, *depth as nat, index as int, has_code, has_comment) == target,
            index >= line@.len() ==> target == (*depth as nat, has_code, has_comment),
            index < line@.len() ==> target == (*depth as nat, has_code, has_comment),
            *depth <= d0 + line@.len(),
        decreases line@.len() - index, *depth,
    {
        if *depth > 0 {
            let end_tok = opt_token_at(line, index, tokens.multi_line_end);
            if end_tok {
                *depth = *depth - 1;
                has_comment = true;
                index = index + tokens.multi_line_end.unwrap().len();
                continue;
            }
            if !identical && opt_token_at(line, index, tokens.multi_line_start) {
                *depth = *depth + 1;
                has_comment = true;
                index = index + tokens.multi_line_start.unwrap().len();
                continue;
            }
            if is_ascii_whitespace_byte(line[index]) {
                index = index + 1;
                continue;
            }
            has_comment = true;
            index = index + 1;
            continue;
        }
        if is_ascii_whitespace_byte(line[index]) {
            index = index + 1;
            continue;
        }
        match match_comment_start(line, index, tokens) {
            Some(CommentStartMatch::SingleLine) => {
                has_comment = true;
                break;
            },
            Some(CommentStartMatch::MultiLine(length)) => {
                *depth = 1;
                has_comment = true;
                index = index + length;
                continue;
            },
            None => {},
        }
        has_code = true;
        index = index + 1;
    }
    if has_code {
        metrics.code_lines = metrics.code_lines + 1;
    } else if has_comment {
        metrics.comment_lines = metrics.comment_lines + 1;
    } else {
        metrics.empty_lines = metrics.empty_lines + 1;
    }
}


fn all_whitespace(line: &[u8]) -> (r: bool)
    ensures
        r == is_blank(line@),
{
    let mut k: usize = 0;
    while k < line.len()
        invariant
            k <= line@.len(),
            forall|j: int| 0 <= j < k ==> is_ascii_ws(#[trigger] line@[j]),
        decreases line@.len() - k,
    {
        if !is_ascii_whitespace_byte(line[k]) {
            return false;
        }
        k = k + 1;
    }
    true
}

/// Counts the lines of `bytes` for a language without comment syntax.
fn scan_commentless_content(bytes: &[u8]) -> (r: LocMetrics)
    ensures
        ({
            let c = commentless_counts(lines_of(bytes@));
            &&& r.code_lines == c.code
            &&& r.comment_lines == c.comment
            &&& r.empty_lines == c.empty
            &&& r.size_bytes == 0
        }),
{
    let mut metrics = LocMetrics::zero();
    let mut lines = LineSlices::new(bytes);
    let ghost all = lines_of(bytes@);
    proof {
        lemma_lines_from_len(bytes@, 0);
        lemma_commentless_total(all);
    }
    while lines.cursor < lines.bytes.len()
        invariant
            lines.bytes@ == bytes@,
            lines.cursor <= bytes@.len(),
            all == lines_of(bytes@),
            all.len() <= bytes@.len(),
            metrics.size_bytes == 0,
            lines.remaining().len() <= all.len(),
            metrics.code_lines + metrics.comment_lines + metrics.empty_lines + lines.remaining().len() == all.len(),
            ({
                let c = commentless_counts(lines.remaining());
                let t = commentless_counts(all);
                &&& metrics.code_lines + c.code == t.code
                &&& metrics.comment_lines + c.comment == t.comment
                &&& metrics.empty_lines + c.empty == t.empty
            }),
        decreases bytes@.len() - lines.cursor,
    {
        proof {
            lemma_commentless_total(lines.remaining());
        }
        let ghost before = lines.remaining();
        match lines.next_line() {
            Some(line) => {
                if all_whitespace(line) {
                    metrics.empty_lines = metrics.empty_lines + 1;
                } else {
                    metrics.code_lines = metrics.code_lines + 1;
                }
                assert(lines.remaining() == before.drop_first());
            },
            None => {},
        }
    }
    proof {
        lemma_commentless_total(lines.remaining());
    }
    metrics
}

/// Counts the code, comment and empty lines of `bytes` in `style`; the size
/// field stays zero.
pub fn scan_content(bytes: &[u8], style: &CommentStyle) -> (r: LocMetrics)
    requires
        style.multi_line_start matches Some(t) ==> t.spec_bytes().len() > 0,
    ensures
        ({
            let c = content_counts(bytes@, *style);
            &&& r.code_lines == c.code
            &&& r.comment_lines == c.comment
            &&& r.empty_lines == c.empty
            &&& r.size_bytes == 0
        }),
{
    if bytes.len() == 0 {
        return LocMetrics::zero();
    }
    let tokens = tokens_of(style);
    if tokens.single_line.is_none() && tokens.multi_line_start.is_none() && tokens.multi_line_end.is_none() {
        return scan_commentless_content(bytes);
    }
    let ghost tok = tokens_view(tokens);
    let mut metrics = LocMetrics::zero();
    let mut depth: usize = 0;
    let mut lines = LineSlices::new(bytes);
    let ghost all = lines_of(bytes@);
    proof {
        lemma_lines_from_len(bytes@, 0);
        lemma_counts_total(all, tok, 0);
    }
    while lines.cursor < lines.bytes.len()
        invariant
            lines.bytes@ == bytes@,
            lines.cursor <= bytes@.len(),
            depth <= lines.cursor,
            all == lines_of(bytes@),
            all.len() <= bytes@.len(),
            tok == tokens_view(tokens),
            tok == style_tokens(*style),
            tokens.multi_line_start matches Some(t) ==> t@.len() > 0,
            metrics.size_bytes == 0,
            lines.remaining().len() <= all.len(),
            metrics.code_lines + metrics.comment_lines + metrics.empty_lines + lines.remaining().len() == all.len(),
            ({
                let c = scan_lines(lines.remaining(), tok, depth as nat);
                let t = scan_lines(all, tok, 0);
                &&& metrics.code_lines + c.code == t.code
                &&& metrics.comment_lines + c.comment == t.comment
                &&& metrics.empty_lines + c.empty == t.empty
            }),
        decreases bytes@.len() - lines.cursor,
    {
        proof {
            lemma_counts_total(lines.remaining(), tok, depth as nat);
            lemma_lines_from_len(bytes@, lines.cursor as int);
        }
        let ghost before = lines.remaining();
        let ghost start = lines.cursor;
        match lines.next_line() {
            Some(line) => {
                proof {
                    lemma_line_within(bytes@, start as int);
                }
                classify_line(line, tokens, &mut depth, &mut metrics);
                assert(lines.remaining() == before.drop_first());
                proof {
                    let (d, code, comment) = scan_line(before[0], tok, (depth as nat), 0, false, false);
                }
            },
            None => {},
        }
    }
    metrics
}

} // verus!
