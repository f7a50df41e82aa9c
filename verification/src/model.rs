//! Extraction of fenced blocks from the AI's streamed output, and the data
//! shapes the assistant reads out of them. Proposed commands arrive in
//! `tool_code` fences, prose for the operator in `text` fences, structured
//! replies in `json` fences.

use crate::text::{
    chars_to_string, contains_sub, find_from, first_match_from, lemma_first_match_bounds,
    lemma_first_match_is, lemma_first_match_none, lemma_match_at_skip, lemma_match_implies_found,
    lemma_trim_idempotent, lemma_trim_keeps_absence, match_at, str_chars, trim_spec,
    trimmed_bounds,
};
use vstd::prelude::*;

verus! {

/// A proposed command, with the model's reason for proposing it.
#[derive(Debug, Clone)]
pub struct Action {
    pub reason: String,
    pub command: String,
}

/// A final answer, with the model's accompanying thoughts.
#[derive(Debug, Clone)]
pub struct Answer {
    pub thoughts: String,
    pub answer: String,
}

/// One structured reply read out of a `json` fence.
pub enum ResponseEnum {
    Action(Action),
    Answer(Answer),
}

/// The three backquotes that open and close a fenced block.
pub open spec fn fence() -> Seq<char> {
    seq!['`', '`', '`']
}

/// The blocks extracted from position `pos` of `s` on: at each step the next
/// opening fence tagged `tag` is sought, then the next closing fence after
/// it; the trimmed span between them is one block. An opening fence with no
/// closing fence ends extraction with the dangling block discarded.
pub open spec fn extract_from(s: Seq<char>, tag: Seq<char>, pos: int) -> Seq<Seq<char>>
    decreases s.len() + 1 - pos,
{
    let open = fence() + tag;
    match first_match_from(s, open, pos) {
        None => Seq::empty(),
        Some(i) => {
            let content_start = i + open.len();
            match first_match_from(s, fence(), content_start) {
                None => Seq::empty(),
                Some(j) => {
                    proof {
                        lemma_first_match_bounds(s, open, pos);
                        lemma_first_match_bounds(s, fence(), content_start);
                    }
                    seq![trim_spec(s.subrange(content_start, j))] + extract_from(s, tag, j + 3)
                },
            }
        },
    }
}

/// The blocks fenced with ```` ```<tag> ```` in `s`, in order of appearance.
pub open spec fn extract_blocks_spec(s: Seq<char>, tag: Seq<char>) -> Seq<Seq<char>> {
    extract_from(s, tag, 0)
}

/// Extracts every block fenced with ```` ```<block_type> ````, trimmed, in
/// the order the blocks appear in the input.
pub fn extract_blocks(input: &str, block_type: &str) -> (blocks: Vec<String>)
    ensures
        blocks.deep_view() == extract_blocks_spec(input@, block_type@),
{
    let v = str_chars(input);
    let tagv = str_chars(block_type);
    let mut open: Vec<char> = Vec::new();
    open.push('`');
    open.push('`');
    open.push('`');
    let mut t: usize = 0;
    while t < tagv.len()
        invariant
            t <= tagv@.len(),
            tagv@ == block_type@,
            open@ == fence() + block_type@.subrange(0, t as int),
        decreases tagv@.len() - t,
    {
        open.push(tagv[t]);
        proof {
            assert(fence() + block_type@.subrange(0, t + 1) =~= (fence() + block_type@.subrange(
                0,
                t as int,
            )).push(block_type@[t as int]));
        }
        t += 1;
    }
    proof {
        assert(block_type@.subrange(0, block_type@.len() as int) =~= block_type@);
    }
    let mut closev: Vec<char> = Vec::new();
    closev.push('`');
    closev.push('`');
    closev.push('`');
    proof {
        assert(closev@ =~= fence());
    }
    let mut blocks: Vec<String> = Vec::new();
    let mut pos: usize = 0;
    let n = v.len();
    loop
        invariant
            v@ == input@,
            n == v@.len(),
            open@ == fence() + block_type@,
            closev@ == fence(),
            blocks.deep_view() + extract_from(input@, block_type@, pos as int)
                == extract_blocks_spec(input@, block_type@),
        decreases v@.len() + 1 - pos,
    {
        let oi = find_from(&v, pos, &open);
        match oi {
            None => {
                proof {
                    assert(blocks.deep_view() + extract_from(input@, block_type@, pos as int)
                        =~= blocks.deep_view());
                }
                return blocks;
            },
            Some(i) => {
                proof {
                    lemma_first_match_bounds(v@, open@, pos as int);
                }
                let content_start = i + open.len();
                let cj = find_from(&v, content_start, &closev);
                match cj {
                    None => {
                        proof {
                            assert(blocks.deep_view() + extract_from(
                                input@,
                                block_type@,
                                pos as int,
                            ) =~= blocks.deep_view());
                        }
                        return blocks;
                    },
                    Some(j) => {
                        proof {
                            lemma_first_match_bounds(v@, fence(), content_start as int);
                        }
                        let ghost old_blocks = blocks.deep_view();
                        let (lo, hi) = trimmed_bounds(&v, content_start, j);
                        let b = chars_to_string(&v, lo, hi);
                        blocks.push(b);
                        proof {
                            assert(blocks.deep_view() =~= old_blocks.push(
                                trim_spec(
                                    input@.subrange(content_start as int, j as int),
                                ),
                            ));
                            assert(extract_from(input@, block_type@, pos as int) == seq![
                                trim_spec(input@.subrange(content_start as int, j as int)),
                            ] + extract_from(input@, block_type@, j + 3));
                            assert(blocks.deep_view() + extract_from(input@, block_type@, j + 3)
                                =~= old_blocks + extract_from(input@, block_type@, pos as int));
                        }
                        pos = j + 3;
                    },
                }
            },
        }
    }
}

/// The tag that fences a proposed command.
pub open spec fn code_tag() -> Seq<char> {
    "tool_code"@
}

/// The tag that fences prose meant for the operator.
pub open spec fn text_tag() -> Seq<char> {
    "text"@
}

/// The tag that fences a structured reply.
pub open spec fn json_tag() -> Seq<char> {
    "json"@
}

/// The proposed commands in `input`, in the order they appear.
pub fn extract_code_blocks(input: &str) -> (blocks: Vec<String>)
    ensures
        blocks.deep_view() == extract_blocks_spec(input@, code_tag()),
{
    extract_blocks(input, "tool_code")
}

/// The display-text blocks in `input`, in the order they appear.
pub fn extract_text_blocks(input: &str) -> (blocks: Vec<String>)
    ensures
        blocks.deep_view() == extract_blocks_spec(input@, text_tag()),
{
    extract_blocks(input, "text")
}

/// The structured-reply blocks in `input`, in the order they appear.
pub fn extract_json_blocks(input: &str) -> (blocks: Vec<String>)
    ensures
        blocks.deep_view() == extract_blocks_spec(input@, json_tag()),
{
    extract_blocks(input, "json")
}

/// Extraction from position `pos` of `s` sees exactly what extraction from
/// the start of the tail `s.skip(d)` sees, for any split point `d` at or
/// before `pos`.
proof fn lemma_extract_shift(s: Seq<char>, tag: Seq<char>, d: int, pos: int)
    requires
        0 <= d <= pos,
        d <= s.len(),
    ensures
        extract_from(s, tag, pos) == extract_from(s.skip(d), tag, pos - d),
    decreases s.len() + 1 - pos,
{
    let open = fence() + tag;
    let s2 = s.skip(d);
    match first_match_from(s, open, pos) {
        None => {
            assert forall|m: int| pos - d <= m implies !match_at(s2, open, m) by {
                if match_at(s2, open, m) {
                    lemma_match_at_skip(s, open, d, m);
                    lemma_match_implies_found(s, open, pos, d + m);
                }
            }
            lemma_first_match_none(s2, open, pos - d);
        },
        Some(i) => {
            lemma_first_match_bounds(s, open, pos);
            assert forall|m: int| pos - d <= m < i - d implies !match_at(s2, open, m) by {
                lemma_match_at_skip(s, open, d, m);
            }
            lemma_match_at_skip(s, open, d, i - d);
            lemma_first_match_is(s2, open, pos - d, i - d);
            let cs = i + open.len();
            match first_match_from(s, fence(), cs) {
                None => {
                    assert forall|m: int| cs - d <= m implies !match_at(s2, fence(), m) by {
                        if match_at(s2, fence(), m) {
                            lemma_match_at_skip(s, fence(), d, m);
                            lemma_match_implies_found(s, fence(), cs, d + m);
                        }
                    }
                    lemma_first_match_none(s2, fence(), cs - d);
                },
                Some(j) => {
                    lemma_first_match_bounds(s, fence(), cs);
                    assert forall|m: int| cs - d <= m < j - d implies !match_at(
                        s2,
                        fence(),
                        m,
                    ) by {
                        lemma_match_at_skip(s, fence(), d, m);
                    }
                    lemma_match_at_skip(s, fence(), d, j - d);
                    lemma_first_match_is(s2, fence(), cs - d, j - d);
                    assert(s2.subrange(cs - d, j - d) =~= s.subrange(cs, j));
                    lemma_extract_shift(s, tag, d, j + 3);
                },
            }
        },
    }
}

/// The given blocks, each wrapped in an opening fence tagged `tag` and a
/// closing fence, concatenated.
pub open spec fn wrap_blocks(bs: Seq<Seq<char>>, tag: Seq<char>) -> Seq<char>
    decreases bs.len(),
{
    if bs.len() == 0 {
        Seq::empty()
    } else {
        fence() + tag + bs[0] + fence() + wrap_blocks(bs.drop_first(), tag)
    }
}

/// A block as extraction itself produces one on well-formed input: already
/// trimmed, holding no fence of its own, and not ending in a backquote that
/// would bleed into the closing fence.
pub open spec fn clean_block(b: Seq<char>) -> bool {
    &&& tidy_block(b)
    &&& (b.len() > 0 ==> b[b.len() - 1] != '`')
}

/// A block in the shape extraction itself returns: trimmed, with no complete
/// fence of its own.
pub open spec fn tidy_block(b: Seq<char>) -> bool {
    trim_spec(b) == b && !contains_sub(b, fence())
}

proof fn lemma_extract_from_tidy(s: Seq<char>, tag: Seq<char>, pos: int)
    ensures
        forall|i: int|
            0 <= i < extract_from(s, tag, pos).len() ==> tidy_block(
                #[trigger] extract_from(s, tag, pos)[i],
            ),
    decreases s.len() + 1 - pos,
{
    let open = fence() + tag;
    match first_match_from(s, open, pos) {
        None => {},
        Some(i0) => {
            lemma_first_match_bounds(s, open, pos);
            let cs = i0 + open.len();
            match first_match_from(s, fence(), cs) {
                None => {},
                Some(j) => {
                    lemma_first_match_bounds(s, fence(), cs);
                    let content = s.subrange(cs, j);
                    lemma_trim_idempotent(content);
                    assert(!contains_sub(content, fence())) by {
                        if contains_sub(content, fence()) {
                            let k = choose|k: int| match_at(content, fence(), k);
                            assert(content.subrange(k, k + 3) =~= s.subrange(
                                cs + k,
                                cs + k + 3,
                            ));
                            assert(match_at(s, fence(), cs + k));
                        }
                    }
                    lemma_trim_keeps_absence(content, fence());
                    lemma_extract_from_tidy(s, tag, j + 3);
                    let blocks = extract_from(s, tag, pos);
                    assert(blocks == seq![trim_spec(content)] + extract_from(s, tag, j + 3));
                    assert forall|q: int| 0 <= q < blocks.len() implies tidy_block(
                        #[trigger] blocks[q],
                    ) by {
                        if q > 0 {
                            assert(blocks[q] == extract_from(s, tag, j + 3)[q - 1]);
                        }
                    }
                },
            }
        },
    }
}

/// Every block that extraction returns is tidy: already trimmed, and holding
/// no complete fence of its own. Such blocks satisfy all of `clean_block`
/// except its trailing-backquote proviso.
pub proof fn lemma_extracted_blocks_tidy(s: Seq<char>, tag: Seq<char>)
    ensures
        forall|i: int|
            0 <= i < extract_blocks_spec(s, tag).len() ==> tidy_block(
                #[trigger] extract_blocks_spec(s, tag)[i],
            ),
{
    lemma_extract_from_tidy(s, tag, 0);
}

/// Extraction is idempotent on well-formed input: re-extracting from the
/// concatenation of already-extracted blocks, re-wrapped in fences with the
/// same tag, yields the same blocks.
pub proof fn lemma_extract_idempotent(bs: Seq<Seq<char>>, tag: Seq<char>)
    requires
        forall|i: int| 0 <= i < bs.len() ==> clean_block(#[trigger] bs[i]),
    ensures
        extract_blocks_spec(wrap_blocks(bs, tag), tag) == bs,
    decreases bs.len(),
{
    let s = wrap_blocks(bs, tag);
    let open = fence() + tag;
    if bs.len() == 0 {
        assert(extract_from(s, tag, 0) =~= bs);
    } else {
        let b = bs[0];
        let tail = wrap_blocks(bs.drop_first(), tag);
        assert(s =~= open + b + fence() + tail);
        assert(s.subrange(0, open.len() as int) =~= open);
        lemma_first_match_is(s, open, 0, 0);
        let cs = open.len() as int;
        let j = cs + b.len();
        assert(s.subrange(j, j + 3) =~= fence());
        assert forall|m: int| cs <= m < j implies !match_at(s, fence(), m) by {
            if match_at(s, fence(), m) {
                let k = m - cs;
                assert(s.subrange(m, m + 3) == fence());
                assert(s[m] == fence()[0]);
                assert(s[m + 1] == fence()[1]);
                if k + 3 <= b.len() {
                    assert(b.subrange(k, k + 3) =~= s.subrange(m, m + 3));
                    assert(match_at(b, fence(), k));
                } else if k == b.len() - 2 {
                    assert(s[m + 1] == b[b.len() - 1]);
                } else {
                    assert(k == b.len() - 1);
                    assert(s[m] == b[b.len() - 1]);
                }
            }
        }
        lemma_first_match_is(s, fence(), cs, j);
        assert(s.subrange(cs, j) =~= b);
        lemma_extract_shift(s, tag, j + 3, j + 3);
        assert(s.skip(j + 3) =~= tail);
        lemma_extract_idempotent(bs.drop_first(), tag);
        assert(extract_from(s, tag, 0) == seq![b] + bs.drop_first());
        assert(seq![b] + bs.drop_first() =~= bs);
    }
}

/// Re-extraction: wrapping what extraction returned back in fences with the
/// same tag and extracting again yields the very same blocks, wherever no
/// extracted block ends in a backquote that would bleed into its closing
/// fence.
pub proof fn lemma_reextraction(s: Seq<char>, tag: Seq<char>)
    requires
        forall|i: int|
            0 <= i < extract_blocks_spec(s, tag).len() ==> ((#[trigger] extract_blocks_spec(
                s,
                tag,
            )[i]).len() > 0 ==> extract_blocks_spec(s, tag)[i][extract_blocks_spec(s, tag)[i].len()
                - 1] != '`'),
    ensures
        extract_blocks_spec(wrap_blocks(extract_blocks_spec(s, tag), tag), tag)
            == extract_blocks_spec(s, tag),
{
    lemma_extracted_blocks_tidy(s, tag);
    lemma_extract_idempotent(extract_blocks_spec(s, tag), tag);
}

} // verus!
