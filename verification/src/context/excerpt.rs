//! Excerpts of selected files.
use vstd::prelude::*;

use crate::line_slices::{LineSlices, lines_of, lemma_lines_from_len};
use crate::text::{
    char_len_utf8, char_width, chars_of, decode_lossy, lemma_utf8_len_bounds,
    lemma_utf8_len_concat, lossy_text, push_char, utf8_len,
};
use super::budget::{div_ceil, estimate_tokens_from_bytes, tokens_for_bytes, u64_div_ceil};
use super::types::ContextExcerpt;

verus! {

/// Files up to this size may be included whole.
pub const NORMAL_FULL_FILE_BYTE_LIMIT: u64 = 4096u64;

pub open spec fn token_cap(exact_focus: bool) -> nat {
    if exact_focus {
        4000
    } else {
        2000
    }
}

/// The token cap of one excerpt: 4000 for an exactly focused file, else 2000.
pub fn excerpt_token_cap(exact_focus: bool) -> (r: u64)
    ensures
        r == token_cap(exact_focus),
{
    if exact_focus {
        4000
    } else {
        2000
    }
}

/// The smallest share of budget worth a partial excerpt: a quarter of the cap.
pub fn minimum_partial_excerpt_tokens(exact_focus: bool) -> (r: u64)
    ensures
        r == div_ceil(token_cap(exact_focus), 4),
{
    u64_div_ceil(excerpt_token_cap(exact_focus), 4)
}

pub open spec fn line_cap(exact_focus: bool) -> nat {
    if exact_focus {
        240
    } else {
        120
    }
}

/// The line cap of one excerpt: 240 for an exactly focused file, else 120.
pub fn excerpt_line_cap(exact_focus: bool) -> (r: usize)
    ensures
        r == line_cap(exact_focus),
{
    if exact_focus {
        240
    } else {
        120
    }
}

/// A file is shown whole when it is at most 4 KiB and its token estimate
/// fits both the cap and the allowance.
pub open spec fn include_full_file(size_bytes: nat, excerpt_len: nat, exact_focus: bool, token_limit: nat) -> bool {
    let tokens = tokens_for_bytes(excerpt_len);
    size_bytes <= 4096 && tokens <= token_cap(exact_focus) && tokens <= token_limit
}

pub fn should_include_full_file(size_bytes: u64, excerpt_bytes: &[u8], exact_focus: bool, excerpt_token_limit: u64) -> (r: bool)
    ensures
        r == include_full_file(size_bytes as nat, excerpt_bytes@.len(), exact_focus, excerpt_token_limit as nat),
{
    let full_file_tokens = estimate_tokens_from_bytes(excerpt_bytes.len() as u64);
    size_bytes <= NORMAL_FULL_FILE_BYTE_LIMIT && full_file_tokens <= excerpt_token_cap(exact_focus)
        && full_file_tokens <= excerpt_token_limit
}

/// The lines of `bytes`, each decoded as lossy UTF-8.
pub open spec fn decoded_lines(bytes: Seq<u8>) -> Seq<Seq<char>> {
    lines_of(bytes).map_values(|l: Seq<u8>| lossy_text(l))
}

/// `lines` joined with `\n`.
pub open spec fn join_lines(lines: Seq<Seq<char>>) -> Seq<char>
    decreases lines.len(),
{
    if lines.len() == 0 {
        Seq::empty()
    } else if lines.len() == 1 {
        lines[0]
    } else {
        join_lines(lines.drop_last()) + seq!['\n'] + lines.last()
    }
}

/// The whole file as an excerpt.
pub fn build_full_excerpt(bytes: &[u8]) -> (r: ContextExcerpt)
    ensures
        r.content@ == join_lines(decoded_lines(bytes@)),
        r.line_start == 1,
        r.line_end == decoded_lines(bytes@).len(),
{
    let ghost all = decoded_lines(bytes@);
    let mut content = String::new();
    let mut count: usize = 0;
    let mut lines = LineSlices::new(bytes);
    proof {
        lemma_lines_from_len(bytes@, 0);
    }
    while lines.cursor < lines.bytes.len()
        invariant
            lines.bytes@ == bytes@,
            lines.cursor <= bytes@.len(),
            all == decoded_lines(bytes@),
            all.len() <= bytes@.len(),
            count <= all.len(),
            lines.remaining() == lines_of(bytes@).skip(count as int),
            content@ == join_lines(all.take(count as int)),
        decreases bytes@.len() - lines.cursor,
    {
        let ghost before = lines.remaining();
        let line = lines.next_line().unwrap();
        let decoded = decode_lossy(line);
        proof {
            assert(lines_of(bytes@).skip(count as int)[0] == lines_of(bytes@)[count as int]);
            assert(all.take(count + 1).drop_last() =~= all.take(count as int));
        }
        if count > 0 {
            push_char(&mut content, '\n');
        }
        content.append(decoded.as_str());
        count = count + 1;
        proof {
            assert(lines.remaining() =~= lines_of(bytes@).skip(count as int));
            if count == 1 {
                assert(content@ =~= join_lines(all.take(count as int)));
            } else {
                assert(content@ =~= join_lines(all.take(count as int)));
            }
        }
    }
    proof {
        assert(lines.remaining().len() == 0);
        assert(all.take(count as int) =~= all);
    }
    ContextExcerpt { line_start: 1, line_end: count as u64, content }
}

/// How many characters of `s`, from position `i` on, fit in `limit` bytes
/// when `used` bytes are already taken.
pub open spec fn clip_count(s: Seq<char>, limit: nat, i: nat, used: nat) -> nat
    decreases s.len() - i,
{
    if i >= s.len() || used + char_width(s[i as int]) > limit {
        i
    } else {
        clip_count(s, limit, i + 1, used + char_width(s[i as int]))
    }
}

/// The longest prefix of `s` whose UTF-8 encoding fits in `limit` bytes.
pub open spec fn clip_chars(s: Seq<char>, limit: nat) -> Seq<char> {
    s.take(clip_count(s, limit, 0, 0) as int)
}

proof fn lemma_clip_count_bounds(s: Seq<char>, limit: nat, i: nat, used: nat)
    requires
        i <= s.len(),
        used == utf8_len(s.take(i as int)),
        used <= limit,
    ensures
        i <= clip_count(s, limit, i, used) <= s.len(),
        utf8_len(s.take(clip_count(s, limit, i, used) as int)) <= limit,
    decreases s.len() - i,
{
    if !(i >= s.len() || used + char_width(s[i as int]) > limit) {
        assert(s.take(i as int + 1).drop_last() =~= s.take(i as int));
        lemma_clip_count_bounds(s, limit, i + 1, used + char_width(s[i as int]));
    }
}

/// The longest prefix of `content` that fits in `byte_limit` bytes.
pub fn clip_to_byte_limit(content: &str, byte_limit: usize) -> (r: String)
    ensures
        r@ == clip_chars(content@, byte_limit as nat),
        utf8_len(r@) <= byte_limit,
{
    let chars = chars_of(content);
    let mut clipped = String::new();
    let mut used: usize = 0;
    let mut i: usize = 0;
    proof {
        lemma_clip_count_bounds(content@, byte_limit as nat, 0, 0);
    }
    while i < chars.len()
        invariant
            chars@ == content@,
            i <= chars@.len(),
            clipped@ == chars@.take(i as int),
            used == utf8_len(chars@.take(i as int)),
            used <= byte_limit,
            clip_count(content@, byte_limit as nat, i as nat, used as nat) == clip_count(content@, byte_limit as nat, 0, 0),
        ensures
            i <= chars@.len(),
            clipped@ == chars@.take(i as int),
            used == utf8_len(chars@.take(i as int)),
            used <= byte_limit,
            clip_count(content@, byte_limit as nat, i as nat, used as nat) == clip_count(content@, byte_limit as nat, 0, 0),
            i >= chars@.len() || used + char_width(chars@[i as int]) > byte_limit,
        decreases chars@.len() - i,
    {
        let w = char_len_utf8(chars[i]);
        if w > byte_limit - used {
            break;
        }
        proof {
            assert(chars@.take(i + 1).drop_last() =~= chars@.take(i as int));
        }
        push_char(&mut clipped, chars[i]);
        used = used + w;
        i = i + 1;
        assert(clipped@ =~= chars@.take(i as int));
    }
    proof {
        lemma_clip_count_bounds(content@, byte_limit as nat, i as nat, used as nat);
    }
    clipped
}

/// The text, last line index and truncation flag of a head excerpt, taking
/// lines from `i` on onto `content`.
pub open spec fn head_from(
    lines: Seq<Seq<char>>,
    line_limit: nat,
    byte_limit: nat,
    i: nat,
    content: Seq<char>,
    line_end: nat,
) -> (Seq<char>, nat, bool)
    decreases lines.len() - i,
{
    if i >= lines.len() {
        (content, line_end, line_end < lines.len())
    } else if i >= line_limit {
        (content, line_end, true)
    } else {
        let next = lines[i as int];
        let sep: nat = if content.len() == 0 {
            0
        } else {
            1
        };
        if utf8_len(content) + sep + utf8_len(next) <= byte_limit {
            head_from(
                lines,
                line_limit,
                byte_limit,
                i + 1,
                if content.len() == 0 {
                    next
                } else {
                    content + seq!['\n'] + next
                },
                i + 1,
            )
        } else if content.len() == 0 {
            (clip_chars(next, byte_limit), i + 1, true)
        } else {
            (content, line_end, true)
        }
    }
}

/// A head excerpt started from text within the byte limit stays within it.
pub proof fn lemma_head_fits(
    lines: Seq<Seq<char>>,
    line_limit: nat,
    byte_limit: nat,
    i: nat,
    content: Seq<char>,
    line_end: nat,
)
    requires
        utf8_len(content) <= byte_limit,
    ensures
        utf8_len(head_from(lines, line_limit, byte_limit, i, content, line_end).0) <= byte_limit,
    decreases lines.len() - i,
{
    if i < lines.len() && i < line_limit {
        let next = lines[i as int];
        let sep: nat = if content.len() == 0 { 0 } else { 1 };
        if utf8_len(content) + sep + utf8_len(next) <= byte_limit {
            if content.len() == 0 {
                lemma_head_fits(lines, line_limit, byte_limit, i + 1, next, i + 1);
            } else {
                lemma_utf8_len_concat(content, seq!['\n']);
                lemma_utf8_len_concat(content + seq!['\n'], next);
                assert(utf8_len(seq!['\n']) == 1) by {
                    assert(seq!['\n'].drop_last() =~= Seq::<char>::empty());
                    assert(seq!['\n'].last() == '\n');
                    assert(('\n' as u32) == 10);
                    assert(char_width('\n') == 1);
                    assert(utf8_len(Seq::<char>::empty()) == 0);
                }
                lemma_head_fits(lines, line_limit, byte_limit, i + 1, content + seq!['\n'] + next, i + 1);
            }
        } else if content.len() == 0 {
            assert(next.take(0) =~= Seq::<char>::empty());
            lemma_clip_count_bounds(next, byte_limit, 0, 0);
        }
    }
}

/// Four bytes per token, capped at the largest `usize`.
pub open spec fn byte_limit_for(token_limit: nat) -> nat {
    if token_limit * 4 > usize::MAX {
        usize::MAX as nat
    } else {
        token_limit * 4
    }
}

/// `min(utf8_len(s), 2^64)`.
pub fn utf8_len_capped(s: &str) -> (r: u128)
    ensures
        r == if utf8_len(s@) < 0x1_0000_0000_0000_0000 {
            utf8_len(s@)
        } else {
            0x1_0000_0000_0000_0000nat
        },
{
    let chars = chars_of(s);
    let mut total: u128 = 0;
    let mut i: usize = 0;
    while i < chars.len()
        invariant
            i <= chars@.len(),
            chars@ == s@,
            total == if utf8_len(chars@.take(i as int)) < 0x1_0000_0000_0000_0000 {
                utf8_len(chars@.take(i as int))
            } else {
                0x1_0000_0000_0000_0000nat
            },
        decreases chars@.len() - i,
    {
        proof {
            assert(chars@.take(i + 1).drop_last() =~= chars@.take(i as int));
        }
        let w = char_len_utf8(chars[i]) as u128;
        if total + w >= 0x1_0000_0000_0000_0000u128 {
            total = 0x1_0000_0000_0000_0000u128;
        } else {
            total = total + w;
        }
        i = i + 1;
    }
    assert(chars@.take(i as int) =~= chars@);
    total
}

/// The first lines of `bytes` that fit in `line_limit` lines and
/// `token_limit * 4` bytes, the estimate of its tokens, and whether lines
/// were left out.  When even the first line does not fit, it is clipped.
pub fn build_head_excerpt(bytes: &[u8], line_limit: usize, token_limit: u64) -> (r: (ContextExcerpt, u64, bool))
    ensures
        ({
            let (content, line_end, truncated) = head_from(
                decoded_lines(bytes@),
                line_limit as nat,
                byte_limit_for(token_limit as nat),
                0,
                Seq::empty(),
                0,
            );
            &&& r.0.content@ == content
            &&& r.0.line_start == 1
            &&& r.0.line_end == line_end
            &&& r.2 == truncated
            &&& r.1 == tokens_for_bytes(utf8_len(content))
        }),
{
    let ghost all = decoded_lines(bytes@);
    let byte_limit: usize = if token_limit > (usize::MAX / 4) as u64 {
        usize::MAX
    } else {
        (token_limit * 4) as usize
    };
    let ghost target = head_from(all, line_limit as nat, byte_limit as nat, 0, Seq::empty(), 0);
    let mut content = String::new();
    let mut content_len: usize = 0;
    let mut line_end: usize = 0;
    let mut truncated = false;
    let mut index: usize = 0;
    let mut lines = LineSlices::new(bytes);
    proof {
        lemma_lines_from_len(bytes@, 0);
    }
    while lines.cursor < lines.bytes.len()
        invariant_except_break
            !truncated,
            line_end == index,
            target == head_from(all, line_limit as nat, byte_limit as nat, index as nat, content@, line_end as nat),
            lines.remaining() == lines_of(bytes@).skip(index as int),
            index <= all.len(),
        invariant
            lines.bytes@ == bytes@,
            lines.cursor <= bytes@.len(),
            all == decoded_lines(bytes@),
            all.len() <= bytes@.len(),
            byte_limit as nat == byte_limit_for(token_limit as nat),
            content_len == utf8_len(content@),
            content_len <= byte_limit,
        ensures
            target == if truncated {
                (content@, line_end as nat, true)
            } else {
                (content@, line_end as nat, false)
            },
            content_len == utf8_len(content@),
            !truncated ==> index == all.len() && line_end == index
                && target == head_from(all, line_limit as nat, byte_limit as nat, index as nat, content@, line_end as nat),
        decreases bytes@.len() - lines.cursor,
    {
        proof {
            assert(lines.remaining().len() > 0);
            assert(index < all.len());
        }
        if index >= line_limit {
            truncated = true;
            break;
        }
        let line = lines.next_line().unwrap();
        let decoded = decode_lossy(line);
        proof {
            assert(lines_of(bytes@).skip(index as int)[0] == lines_of(bytes@)[index as int]);
            assert(decoded@ == all[index as int]);
        }
        let next_len = utf8_len_capped(decoded.as_str());
        let sep: u128 = if content_len == 0 {
            0
        } else {
            1
        };
        proof {
            lemma_utf8_len_bounds(content@);
        }
        let ghost was_empty = content@.len() == 0;
        assert(was_empty == (content_len == 0)) by {
            lemma_utf8_len_bounds(content@);
        }
        if content_len as u128 + sep + next_len <= byte_limit as u128 {
            let ghost old_c = content@;
            if content_len != 0 {
                push_char(&mut content, '\n');
            }
            content.append(decoded.as_str());
            proof {
                if was_empty {
                    assert(content@ =~= decoded@);
                } else {
                    assert(content@ =~= old_c + seq!['\n'] + decoded@);
                    lemma_utf8_len_concat(old_c, seq!['\n']);
                    lemma_utf8_len_concat(old_c + seq!['\n'], decoded@);
                    assert(seq!['\n'].drop_last() =~= Seq::<char>::empty());
                    assert(seq!['\n'].last() == '\n');
                    assert(('\n' as u32) == 10);
                    assert(char_width('\n') == 1);
                    assert(utf8_len(Seq::<char>::empty()) == 0);
                    assert(('\n' as u32) == 10u32);
                    reveal_with_fuel(utf8_len, 2);
                    assert(utf8_len(seq!['\n']) == 1);
                }
            }
            content_len = (content_len as u128 + sep + next_len) as usize;
            index = index + 1;
            line_end = index;
            proof {
                assert(lines.remaining() =~= lines_of(bytes@).skip(index as int));
            }
            continue;
        }
        if content_len == 0 {
            let clipped = clip_to_byte_limit(decoded.as_str(), byte_limit);
            content = clipped;
            proof {
                lemma_utf8_len_bounds(content@);
            }
            content_len = utf8_len_capped(content.as_str()) as usize;
            line_end = index + 1;
        }
        truncated = true;
        break;
    }
    let estimated_tokens = estimate_tokens_from_bytes(content_len as u64);
    (ContextExcerpt { line_start: 1, line_end: line_end as u64, content }, estimated_tokens, truncated)
}

/// `bytes` without a leading UTF-8 byte-order mark.
pub open spec fn without_bom(bytes: Seq<u8>) -> Seq<u8> {
    if bytes.len() >= 3 && bytes[0] == 0xEFu8 && bytes[1] == 0xBBu8 && bytes[2] == 0xBFu8 {
        bytes.skip(3)
    } else {
        bytes
    }
}

pub fn strip_utf8_bom(bytes: &[u8]) -> (r: &[u8])
    ensures
        r@ == without_bom(bytes@),
{
    if bytes.len() >= 3 && bytes[0] == 0xEFu8 && bytes[1] == 0xBBu8 && bytes[2] == 0xBFu8 {
        vstd::slice::slice_subrange(bytes, 3, bytes.len())
    } else {
        bytes
    }
}

} // verus!
