//! Finding the code blocks of an event sequence, and placing generated
//! fragments into such a sequence.

use vstd::prelude::*;
use crate::block::{blocks_view, BlockView, CodeBlock};
use crate::events::{tokens_view, Token, TokenView};
use crate::options::{default_options, parse_options, CodeBlockOptions, OptionsView};

verus! {

/// What the walk over the events has found so far.
pub struct Extraction {
    /// The blocks opened so far, in the order in which they were opened.
    pub blocks: Seq<BlockView>,
    /// Whether the walk is inside a block, which is then the last one.
    pub in_block: bool,
    /// Whether no text of the current block has been seen yet.
    pub first_line: bool,
}

/// The state of the walk before any event.
pub open spec fn extraction_start() -> Extraction {
    Extraction { blocks: Seq::empty(), in_block: false, first_line: false }
}

/// The effect of the token at `position` on the walk.
///
/// An opening event outside a block opens a new block. Inside a block the
/// first text run is read as the block's directives; where it spells none,
/// it is code like every later run. A closing event inside a block records
/// the block's end. An opening event inside a block and a closing event
/// outside one change nothing.
pub open spec fn extract_step(state: Extraction, position: nat, token: TokenView) -> Extraction {
    match token {
        TokenView::CodeBlockStart => if state.in_block {
            state
        } else {
            Extraction {
                blocks: state.blocks.push(BlockView::opened(state.blocks.len(), position)),
                in_block: true,
                first_line: true,
            }
        },
        TokenView::Text(text) => if !state.in_block {
            state
        } else {
            let block = state.blocks.last();
            let updated = if state.first_line && parse_options(text) is Some {
                BlockView { options: parse_options(text)->0, ..block }
            } else {
                BlockView { code: block.code + text, ..block }
            };
            Extraction {
                blocks: state.blocks.drop_last().push(updated),
                in_block: true,
                first_line: false,
            }
        },
        TokenView::CodeBlockEnd => if !state.in_block {
            state
        } else {
            let block = state.blocks.last();
            Extraction {
                blocks: state.blocks.drop_last().push(BlockView { end_index: position, ..block }),
                in_block: false,
                first_line: false,
            }
        },
        TokenView::Other => state,
    }
}

/// The state of the walk after the first `n` tokens.
pub open spec fn extract_prefix(tokens: Seq<TokenView>, n: nat) -> Extraction
    decreases n,
{
    if n == 0 {
        extraction_start()
    } else {
        extract_step(extract_prefix(tokens, (n - 1) as nat), (n - 1) as nat, tokens[n - 1])
    }
}

/// The code blocks of a token sequence, in document order.
pub open spec fn extract_blocks(tokens: Seq<TokenView>) -> Seq<BlockView> {
    extract_prefix(tokens, tokens.len()).blocks
}

/// The texts of the text runs at the positions from `from` up to, not
/// counting, `to`, in order.
pub open spec fn texts_between(tokens: Seq<TokenView>, from: nat, to: nat) -> Seq<Seq<char>>
    decreases to,
{
    if to <= from {
        Seq::empty()
    } else {
        let before = texts_between(tokens, from, (to - 1) as nat);
        match tokens[to - 1] {
            TokenView::Text(text) => before.push(text),
            _ => before,
        }
    }
}

/// The texts of a list joined end to end.
pub open spec fn concat(parts: Seq<Seq<char>>) -> Seq<char>
    decreases parts.len(),
{
    if parts.len() == 0 {
        Seq::empty()
    } else {
        concat(parts.drop_last()) + parts.last()
    }
}

/// The directives and the code that the text runs of one block give: where
/// the first run spells directives, those and the remaining runs; else no
/// directives and all the runs.
pub open spec fn block_content(texts: Seq<Seq<char>>) -> (OptionsView, Seq<char>) {
    if texts.len() > 0 && parse_options(texts[0]) is Some {
        (parse_options(texts[0])->0, concat(texts.drop_first()))
    } else {
        (default_options(), concat(texts))
    }
}

/// Where the text of a block stops among the first `n` tokens: at its
/// closing event, or at `n` while it is open.
pub open spec fn block_stop(block: BlockView, n: nat) -> nat {
    if block.is_closed() {
        block.end_index
    } else {
        n
    }
}

/// What holds of a block found among the first `n` tokens.
pub open spec fn block_matches(tokens: Seq<TokenView>, n: nat, k: int, block: BlockView) -> bool {
    &&& block.index == k
    &&& block.start_index < n
    &&& tokens[block.start_index as int] is CodeBlockStart
    &&& block.is_closed() ==> block.start_index < block.end_index < n
        && tokens[block.end_index as int] is CodeBlockEnd
    &&& (block.options, block.code) == block_content(
        texts_between(tokens, block.start_index + 1, block_stop(block, n)),
    )
}

/// What holds of the walk after the first `n` tokens: every block is
/// described by the tokens between its ends, all blocks but the last are
/// closed, and each ends before the next starts.
pub open spec fn extraction_consistent(tokens: Seq<TokenView>, n: nat, state: Extraction) -> bool {
    &&& state.blocks.len() <= n
    &&& state.in_block <==> state.blocks.len() > 0 && !state.blocks.last().is_closed()
    &&& state.first_line <==> state.in_block && texts_between(
        tokens,
        state.blocks.last().start_index + 1,
        n,
    ).len() == 0
    &&& forall|k: int|
        0 <= k < state.blocks.len() ==> block_matches(tokens, n, k, #[trigger] state.blocks[k])
    &&& forall|k: int|
        0 <= k < state.blocks.len() - 1 ==> (#[trigger] state.blocks[k]).is_closed()
            && state.blocks[k].end_index < state.blocks[k + 1].start_index
}

proof fn lemma_push_then_drop_first<A>(s: Seq<A>, a: A)
    requires
        s.len() > 0,
    ensures
        s.push(a).drop_first() == s.drop_first().push(a),
{
    assert(s.push(a).drop_first() =~= s.drop_first().push(a));
}

proof fn lemma_content_grows(texts: Seq<Seq<char>>, text: Seq<char>)
    ensures
        texts.len() > 0 ==> block_content(texts.push(text)) == (
            block_content(texts).0,
            block_content(texts).1 + text,
        ),
        texts.len() == 0 && parse_options(text) is Some ==> block_content(texts.push(text)) == (
            parse_options(text)->0,
            Seq::<char>::empty(),
        ),
        texts.len() == 0 && parse_options(text) is None ==> block_content(texts.push(text)) == (
            default_options(),
            text,
        ),
{
    let grown = texts.push(text);
    assert(grown.drop_last() =~= texts);
    assert(grown.last() == text);
    if texts.len() > 0 {
        assert(grown[0] == texts[0]);
        lemma_push_then_drop_first(texts, text);
        assert(grown.drop_first().drop_last() =~= texts.drop_first());
    } else {
        assert(grown.drop_first() =~= Seq::<Seq<char>>::empty());
        assert(concat(texts) =~= Seq::<char>::empty());
        assert(concat(grown) =~= text);
    }
}

/// The walk keeps its state consistent with the tokens it has seen.
pub proof fn lemma_extraction_consistent(tokens: Seq<TokenView>, n: nat)
    requires
        n <= tokens.len(),
    ensures
        extraction_consistent(tokens, n, extract_prefix(tokens, n)),
    decreases n,
{
    if n > 0 {
        let m = (n - 1) as nat;
        lemma_extraction_consistent(tokens, m);
        let before = extract_prefix(tokens, m);
        let after = extract_prefix(tokens, n);
        let token = tokens[m as int];
        assert(after == extract_step(before, m, token));
        assert forall|k: int| 0 <= k < before.blocks.len() && (k < before.blocks.len() - 1
            || !before.in_block) implies block_matches(tokens, n, k, #[trigger] before.blocks[k]) by {
            assert(block_matches(tokens, m, k, before.blocks[k]));
        }
        match token {
            TokenView::CodeBlockStart => {
                if before.in_block {
                    let last = before.blocks.last();
                    assert(block_matches(tokens, m, before.blocks.len() - 1, last));
                    assert(block_matches(tokens, n, before.blocks.len() - 1, last));
                } else {
                    let opened = BlockView::opened(before.blocks.len(), m);
                    assert(texts_between(tokens, m + 1, n) =~= Seq::<Seq<char>>::empty());
                    assert(concat(Seq::<Seq<char>>::empty()) =~= Seq::<char>::empty());
                    assert(block_matches(tokens, n, before.blocks.len() as int, opened));
                    if before.blocks.len() > 0 {
                        assert(block_matches(
                            tokens,
                            m,
                            before.blocks.len() - 1,
                            before.blocks.last(),
                        ));
                    }
                }
            },
            TokenView::Text(text) => {
                if before.in_block {
                    let last = before.blocks.last();
                    let texts = texts_between(tokens, last.start_index + 1, m);
                    assert(block_matches(tokens, m, before.blocks.len() - 1, last));
                    assert(texts_between(tokens, last.start_index + 1, n) == texts.push(text));
                    lemma_content_grows(texts, text);
                    assert(concat(Seq::<Seq<char>>::empty()) =~= Seq::<char>::empty());
                    assert(Seq::<char>::empty() + text =~= text);
                    assert(block_matches(tokens, n, before.blocks.len() - 1, after.blocks.last()));
                }
            },
            TokenView::CodeBlockEnd => {
                if before.in_block {
                    let last = before.blocks.last();
                    assert(block_matches(tokens, m, before.blocks.len() - 1, last));
                    assert(block_matches(tokens, n, before.blocks.len() - 1, after.blocks.last()));
                }
            },
            TokenView::Other => {
                if before.in_block {
                    let last = before.blocks.last();
                    assert(block_matches(tokens, m, before.blocks.len() - 1, last));
                    assert(block_matches(tokens, n, before.blocks.len() - 1, last));
                }
            },
        }
    }
}

/// The number of opening events among the first `n` tokens.
pub open spec fn count_starts(tokens: Seq<TokenView>, n: nat) -> nat
    decreases n,
{
    if n == 0 {
        0
    } else if tokens[n - 1] is CodeBlockStart {
        count_starts(tokens, (n - 1) as nat) + 1
    } else {
        count_starts(tokens, (n - 1) as nat)
    }
}

/// The number of closing events among the first `n` tokens.
pub open spec fn count_ends(tokens: Seq<TokenView>, n: nat) -> nat
    decreases n,
{
    if n == 0 {
        0
    } else if tokens[n - 1] is CodeBlockEnd {
        count_ends(tokens, (n - 1) as nat) + 1
    } else {
        count_ends(tokens, (n - 1) as nat)
    }
}

/// How many code blocks are open after the first `n` tokens.
pub open spec fn fence_depth(tokens: Seq<TokenView>, n: nat) -> int {
    count_starts(tokens, n) - count_ends(tokens, n)
}

/// The opening and closing events of the first `n` tokens come in turn,
/// an opening one first.
pub open spec fn fenced_up_to(tokens: Seq<TokenView>, n: nat) -> bool {
    forall|m: nat| m <= n ==> 0 <= #[trigger] fence_depth(tokens, m) <= 1
}

/// The code fences of the sequence are well formed: they open and close in
/// turn, and the last one is closed.
pub open spec fn well_fenced(tokens: Seq<TokenView>) -> bool {
    &&& fenced_up_to(tokens, tokens.len())
    &&& fence_depth(tokens, tokens.len()) == 0
}

proof fn lemma_fenced_walk(tokens: Seq<TokenView>, n: nat)
    requires
        n <= tokens.len(),
        fenced_up_to(tokens, n),
    ensures
        extract_prefix(tokens, n).blocks.len() == count_starts(tokens, n),
        extract_prefix(tokens, n).in_block <==> fence_depth(tokens, n) == 1,
    decreases n,
{
    if n > 0 {
        let m = (n - 1) as nat;
        assert(fenced_up_to(tokens, m)) by {
            assert forall|j: nat| j <= m implies 0 <= #[trigger] fence_depth(tokens, j) <= 1 by {
                assert(j <= n);
            }
        }
        lemma_fenced_walk(tokens, m);
        assert(0 <= fence_depth(tokens, m) <= 1);
        assert(0 <= fence_depth(tokens, n) <= 1);
    }
}

proof fn lemma_blocks_in_order(tokens: Seq<TokenView>, k: int, l: int)
    requires
        0 <= k < l < extract_blocks(tokens).len(),
    ensures
        extract_blocks(tokens)[k].is_closed(),
        extract_blocks(tokens)[k].start_index < extract_blocks(tokens)[k].end_index,
        extract_blocks(tokens)[k].end_index < extract_blocks(tokens)[l].start_index,
    decreases l - k,
{
    let blocks = extract_blocks(tokens);
    lemma_extraction_consistent(tokens, tokens.len());
    assert(block_matches(tokens, tokens.len(), k, blocks[k]));
    assert(blocks[k].is_closed());
    if k + 1 < l {
        lemma_blocks_in_order(tokens, k + 1, l);
        assert(block_matches(tokens, tokens.len(), k + 1, blocks[k + 1]));
    }
}

/// The blocks of any token sequence: each carries its ordinal, stands at
/// an opening event, ends (where it ends) at a later closing event, and
/// holds the directives and the code that the text runs in between give.
/// Every block but the last is closed, and each ends before the next
/// starts.
pub proof fn lemma_extract_blocks(tokens: Seq<TokenView>)
    ensures
        extract_blocks(tokens).len() <= tokens.len(),
        forall|k: int|
            0 <= k < extract_blocks(tokens).len() ==> block_matches(
                tokens,
                tokens.len(),
                k,
                #[trigger] extract_blocks(tokens)[k],
            ),
        forall|k: int, l: int|
            0 <= k < l < extract_blocks(tokens).len() ==> (#[trigger] extract_blocks(
                tokens,
            )[k]).is_closed() && extract_blocks(tokens)[k].end_index < (#[trigger] extract_blocks(
                tokens,
            )[l]).start_index,
{
    lemma_extraction_consistent(tokens, tokens.len());
    assert forall|k: int, l: int| 0 <= k < l < extract_blocks(tokens).len() implies (
    #[trigger] extract_blocks(tokens)[k]).is_closed() && extract_blocks(tokens)[k].end_index < (
    #[trigger] extract_blocks(tokens)[l]).start_index by {
        lemma_blocks_in_order(tokens, k, l);
    }
}

/// Where the code fences of a sequence are well formed, the walk finds one
/// block for each opening event, in document order, and every block is
/// closed: it starts before it ends, and ends before the next one starts.
pub proof fn lemma_extract_well_fenced(tokens: Seq<TokenView>)
    requires
        well_fenced(tokens),
    ensures
        extract_blocks(tokens).len() == count_starts(tokens, tokens.len()),
        forall|k: int|
            0 <= k < extract_blocks(tokens).len() ==> {
                let block = #[trigger] extract_blocks(tokens)[k];
                &&& block.index == k
                &&& block.start_index < block.end_index < tokens.len()
                &&& tokens[block.start_index as int] is CodeBlockStart
                &&& tokens[block.end_index as int] is CodeBlockEnd
            },
        forall|k: int, l: int|
            0 <= k < l < extract_blocks(tokens).len() ==> (#[trigger] extract_blocks(
                tokens,
            )[k]).end_index < (#[trigger] extract_blocks(tokens)[l]).start_index,
{
    let blocks = extract_blocks(tokens);
    lemma_fenced_walk(tokens, tokens.len());
    lemma_extraction_consistent(tokens, tokens.len());
    lemma_extract_blocks(tokens);
    assert forall|k: int| 0 <= k < blocks.len() implies {
        let block = #[trigger] blocks[k];
        &&& block.index == k
        &&& block.start_index < block.end_index < tokens.len()
        &&& tokens[block.start_index as int] is CodeBlockStart
        &&& tokens[block.end_index as int] is CodeBlockEnd
    } by {
        assert(block_matches(tokens, tokens.len(), k, blocks[k]));
        if k < blocks.len() - 1 {
            assert(blocks[k].is_closed());
        } else {
            assert(blocks[k] == blocks.last());
        }
    }
}

/// A first line that spells no directives is code: the block keeps the
/// empty directives and its code is all its text runs, the first among
/// them. A first line that spells directives sets them and is no code.
pub proof fn lemma_first_line(tokens: Seq<TokenView>, k: int)
    requires
        0 <= k < extract_blocks(tokens).len(),
    ensures
        ({
            let block = extract_blocks(tokens)[k];
            let texts = texts_between(
                tokens,
                block.start_index + 1,
                block_stop(block, tokens.len()),
            );
            &&& texts.len() == 0 ==> block.options == default_options() && block.code
                == Seq::<char>::empty()
            &&& texts.len() > 0 && parse_options(texts[0]) is None ==> block.options
                == default_options() && block.code == concat(texts) && texts[0].is_prefix_of(
                block.code,
            )
            &&& texts.len() > 0 && parse_options(texts[0]) is Some ==> block.options
                == parse_options(texts[0])->0 && block.code == concat(texts.drop_first())
        }),
{
    let block = extract_blocks(tokens)[k];
    let texts = texts_between(tokens, block.start_index + 1, block_stop(block, tokens.len()));
    lemma_extraction_consistent(tokens, tokens.len());
    assert(block_matches(tokens, tokens.len(), k, block));
    if texts.len() > 0 {
        lemma_concat_starts_with_first(texts);
    }
}

proof fn lemma_concat_starts_with_first(parts: Seq<Seq<char>>)
    requires
        parts.len() > 0,
    ensures
        parts[0].is_prefix_of(concat(parts)),
    decreases parts.len(),
{
    if parts.len() == 1 {
        assert(parts.drop_last() =~= Seq::<Seq<char>>::empty());
        assert(concat(parts.drop_last()) =~= Seq::<char>::empty());
        assert(concat(parts) =~= parts[0]);
    } else {
        lemma_concat_starts_with_first(parts.drop_last());
        assert(parts.drop_last()[0] == parts[0]);
    }
}

/// Walks the tokens once and collects the code blocks, in document order.
pub fn extract(tokens: &Vec<Token>) -> (blocks: Vec<CodeBlock>)
    ensures
        blocks_view(blocks@) == extract_blocks(tokens_view(tokens@)),
        blocks@.len() <= tokens@.len(),
        forall|k: int|
            0 <= k < blocks@.len() ==> {
                let block = #[trigger] blocks@[k];
                &&& block.index == k
                &&& block.start_index < tokens@.len()
                &&& block.end_index != 0 ==> block.start_index < block.end_index < tokens@.len()
            },
        forall|k: int, l: int|
            0 <= k < l < blocks@.len() ==> (#[trigger] blocks@[k]).end_index != 0
                && blocks@[k].end_index < (#[trigger] blocks@[l]).start_index,
{
    let ghost model = tokens_view(tokens@);
    let mut blocks: Vec<CodeBlock> = Vec::new();
    let mut in_block = false;
    let mut first_line = false;
    let mut i: usize = 0;
    assert(blocks_view(blocks@) =~= extraction_start().blocks);
    while i < tokens.len()
        invariant
            i <= tokens@.len(),
            model == tokens_view(tokens@),
            blocks_view(blocks@) == extract_prefix(model, i as nat).blocks,
            in_block == extract_prefix(model, i as nat).in_block,
            first_line == extract_prefix(model, i as nat).first_line,
            in_block ==> blocks@.len() > 0,
            blocks@.len() <= i,
        decreases tokens@.len() - i,
    {
        let ghost before = extract_prefix(model, i as nat);
        assert(model[i as int] == tokens@[i as int]@);
        match &tokens[i] {
            Token::CodeBlockStart => {
                if !in_block {
                    blocks.push(CodeBlock::new(blocks.len(), i));
                    in_block = true;
                    first_line = true;
                    assert(blocks_view(blocks@) =~= before.blocks.push(
                        BlockView::opened(before.blocks.len(), i as nat),
                    ));
                }
            },
            Token::Text(text) => {
                if in_block {
                    let mut block = blocks.pop().unwrap();
                    assert(block@ == before.blocks.last());
                    assert(blocks_view(blocks@) =~= before.blocks.drop_last());
                    let parsed = if first_line {
                        CodeBlockOptions::parse(text.as_str())
                    } else {
                        None
                    };
                    match parsed {
                        Some(options) => {
                            block.options = options;
                        },
                        None => {
                            block.push_code(text.as_str());
                        },
                    }
                    first_line = false;
                    let ghost rest = blocks_view(blocks@);
                    blocks.push(block);
                    assert(blocks_view(blocks@) =~= rest.push(block@));
                }
            },
            Token::CodeBlockEnd => {
                if in_block {
                    let mut block = blocks.pop().unwrap();
                    assert(block@ == before.blocks.last());
                    assert(blocks_view(blocks@) =~= before.blocks.drop_last());
                    block.end_index = i;
                    in_block = false;
                    first_line = false;
                    let ghost rest = blocks_view(blocks@);
                    blocks.push(block);
                    assert(blocks_view(blocks@) =~= rest.push(block@));
                }
            },
            Token::Other => {},
        }
        i += 1;
    }
    proof {
        lemma_extract_blocks(model);
        assert forall|k: int| 0 <= k < blocks@.len() implies {
            let block = #[trigger] blocks@[k];
            &&& block.index == k
            &&& block.start_index < tokens@.len()
            &&& block.end_index != 0 ==> block.start_index < block.end_index < tokens@.len()
        } by {
            assert(blocks_view(blocks@)[k] == blocks@[k]@);
            assert(block_matches(model, model.len(), k, extract_blocks(model)[k]));
        }
        assert forall|k: int, l: int| 0 <= k < l < blocks@.len() implies (
        #[trigger] blocks@[k]).end_index != 0 && blocks@[k].end_index < (
        #[trigger] blocks@[l]).start_index by {
            assert(blocks_view(blocks@)[k] == blocks@[k]@);
            assert(blocks_view(blocks@)[l] == blocks@[l]@);
            assert(extract_blocks(model)[k].is_closed());
        }
    }
    blocks
}

/// The sequence after the first `n` insertions have been applied, each at
/// its target moved right by the number of insertions applied before it.
pub open spec fn splice_prefix<T>(events: Seq<T>, insertions: Seq<(usize, T)>, n: nat) -> Seq<T>
    decreases n,
{
    if n == 0 {
        events
    } else {
        splice_prefix(events, insertions, (n - 1) as nat).insert(
            insertions[n - 1].0 + (n - 1),
            insertions[n - 1].1,
        )
    }
}

/// The sequence after all the insertions have been applied, in the order
/// in which they are listed.
pub open spec fn spliced<T>(events: Seq<T>, insertions: Seq<(usize, T)>) -> Seq<T> {
    splice_prefix(events, insertions, insertions.len())
}

/// No insertion aims beyond the end of a sequence of the given length.
pub open spec fn targets_in_range<T>(insertions: Seq<(usize, T)>, len: nat) -> bool {
    forall|k: int| 0 <= k < insertions.len() ==> (#[trigger] insertions[k]).0 <= len
}

proof fn lemma_splice_len<T>(events: Seq<T>, insertions: Seq<(usize, T)>, n: nat)
    requires
        n <= insertions.len(),
        targets_in_range(insertions, events.len()),
    ensures
        splice_prefix(events, insertions, n).len() == events.len() + n,
    decreases n,
{
    if n > 0 {
        lemma_splice_len(events, insertions, (n - 1) as nat);
        assert(insertions[n - 1].0 <= events.len());
    }
}

/// Places each fragment into `events` in front of the element that stood at
/// the fragment's target (a target equal to the length appends). The
/// insertions are applied in the order given, and a running offset makes up
/// for the elements inserted before.
pub fn splice<T>(events: Vec<T>, insertions: Vec<(usize, T)>) -> (out: Vec<T>)
    requires
        targets_in_range(insertions@, events@.len()),
    ensures
        out@ == spliced(events@, insertions@),
        out@.len() == events@.len() + insertions@.len(),
{
    let ghost initial = events@;
    let ghost all = insertions@;
    let mut out = events;
    let mut offset: usize = 0;
    for pair in it: insertions
        invariant
            all == it.seq(),
            offset == it.index(),
            targets_in_range(all, initial.len()),
            out@ == splice_prefix(initial, all, offset as nat),
            out@.len() == initial.len() + offset,
    {
        let (target, fragment) = pair;
        assert(all[offset as int].0 <= initial.len());
        let len = out.len();
        assert(target + offset <= len);
        out.insert(target + offset, fragment);
        let grown = out.len();
        assert(offset < grown);
        offset += 1;
    }
    out
}

/// The targets never decrease along the list.
pub open spec fn targets_ascending<T>(insertions: Seq<(usize, T)>) -> bool {
    forall|k: int, l: int|
        0 <= k <= l < insertions.len() ==> (#[trigger] insertions[k]).0 <= (
        #[trigger] insertions[l]).0
}

/// How many of the first `n` insertions aim at position `j` or before it.
pub open spec fn count_up_to<T>(insertions: Seq<(usize, T)>, n: nat, j: int) -> nat
    decreases n,
{
    if n == 0 {
        0
    } else if insertions[n - 1].0 <= j {
        count_up_to(insertions, (n - 1) as nat, j) + 1
    } else {
        count_up_to(insertions, (n - 1) as nat, j)
    }
}

/// Where the element that stood at position `j` stands after the splice:
/// moved right by the number of fragments placed at or before it.
pub open spec fn element_position<T>(insertions: Seq<(usize, T)>, j: int) -> int {
    j + count_up_to(insertions, insertions.len(), j)
}

/// Where the fragment of the insertion at index `k` stands after the
/// splice: at its target, moved right by the number of insertions listed
/// before it.
pub open spec fn fragment_position<T>(insertions: Seq<(usize, T)>, k: int) -> int {
    insertions[k].0 + k
}

proof fn lemma_count_bounds<T>(insertions: Seq<(usize, T)>, n: nat, j: int, k: int)
    requires
        n <= insertions.len(),
        targets_ascending(insertions),
        0 <= k < insertions.len(),
    ensures
        count_up_to(insertions, n, j) <= n,
        insertions[k].0 <= j && k < n ==> count_up_to(insertions, n, j) >= k + 1,
        insertions[k].0 > j ==> count_up_to(insertions, n, j) <= k,
    decreases n,
{
    if n > 0 {
        lemma_count_bounds(insertions, (n - 1) as nat, j, k);
        if insertions[k].0 > j && n - 1 >= k {
            assert(insertions[k].0 <= insertions[n - 1].0);
        }
        if insertions[k].0 <= j && k == n - 1 && k > 0 {
            lemma_count_bounds(insertions, (n - 1) as nat, j, k - 1);
            assert(insertions[k - 1].0 <= insertions[k].0);
        }
    }
}

proof fn lemma_count_monotone<T>(insertions: Seq<(usize, T)>, n: nat, i: int, j: int)
    requires
        i <= j,
    ensures
        count_up_to(insertions, n, i) <= count_up_to(insertions, n, j),
    decreases n,
{
    if n > 0 {
        lemma_count_monotone(insertions, (n - 1) as nat, i, j);
    }
}

proof fn lemma_splice_prefix_ascending<T>(events: Seq<T>, insertions: Seq<(usize, T)>, n: nat)
    requires
        n <= insertions.len(),
        targets_in_range(insertions, events.len()),
        targets_ascending(insertions),
    ensures
        splice_prefix(events, insertions, n).len() == events.len() + n,
        forall|k: int|
            0 <= k < n ==> splice_prefix(events, insertions, n)[#[trigger] fragment_position(
                insertions,
                k,
            )] == insertions[k].1,
        forall|j: int|
            0 <= j < events.len() ==> splice_prefix(events, insertions, n)[j + count_up_to(
                insertions,
                n,
                j,
            )] == #[trigger] events[j],
    decreases n,
{
    lemma_splice_len(events, insertions, n);
    if n > 0 {
        let m = (n - 1) as nat;
        lemma_splice_prefix_ascending(events, insertions, m);
        lemma_splice_len(events, insertions, m);
        let before = splice_prefix(events, insertions, m);
        let after = splice_prefix(events, insertions, n);
        let place = insertions[m as int].0 + m;
        assert(insertions[m as int].0 <= events.len());
        assert(after == before.insert(place, insertions[m as int].1));
        assert forall|k: int| 0 <= k < n implies after[#[trigger] fragment_position(insertions, k)]
            == insertions[k].1 by {
            if k < m {
                assert(insertions[k].0 <= insertions[m as int].0);
                assert(before[fragment_position(insertions, k)] == insertions[k].1);
            }
        }
        assert forall|j: int| 0 <= j < events.len() implies after[j + count_up_to(
            insertions,
            n,
            j,
        )] == #[trigger] events[j] by {
            assert(before[j + count_up_to(insertions, m, j)] == events[j]);
            if m > 0 {
                lemma_count_bounds(insertions, m, j, m - 1);
                assert(insertions[m - 1].0 <= insertions[m as int].0);
            }
        }
    }
}

/// Where the targets never decrease, the splice keeps every element and
/// every fragment, each at a known place: the elements in their former
/// order, the fragments in the order of the list (also those that share a
/// target), and each fragment between the elements that stood before and
/// at its target.
pub proof fn lemma_splice_ascending<T>(events: Seq<T>, insertions: Seq<(usize, T)>)
    requires
        targets_in_range(insertions, events.len()),
        targets_ascending(insertions),
    ensures
        spliced(events, insertions).len() == events.len() + insertions.len(),
        forall|k: int|
            0 <= k < insertions.len() ==> 0 <= #[trigger] fragment_position(insertions, k)
                < spliced(events, insertions).len() && spliced(events, insertions)[fragment_position(
                insertions,
                k,
            )] == insertions[k].1,
        forall|j: int|
            0 <= j < events.len() ==> 0 <= #[trigger] element_position(insertions, j) < spliced(
                events,
                insertions,
            ).len() && spliced(events, insertions)[element_position(insertions, j)] == events[j],
        forall|i: int, j: int|
            0 <= i < j < events.len() ==> #[trigger] element_position(insertions, i)
                < #[trigger] element_position(insertions, j),
        forall|k: int, l: int|
            0 <= k < l < insertions.len() ==> #[trigger] fragment_position(insertions, k)
                < #[trigger] fragment_position(insertions, l),
        forall|k: int, j: int|
            0 <= k < insertions.len() && 0 <= j < events.len() ==> (#[trigger] element_position(
                insertions,
                j,
            ) < #[trigger] fragment_position(insertions, k) <==> j < insertions[k].0),
{
    let n = insertions.len();
    lemma_splice_prefix_ascending(events, insertions, n);
    assert forall|k: int| 0 <= k < insertions.len() implies 0 <= #[trigger] fragment_position(
        insertions,
        k,
    ) < spliced(events, insertions).len() && spliced(events, insertions)[fragment_position(
        insertions,
        k,
    )] == insertions[k].1 by {
        assert(insertions[k].0 <= events.len());
    }
    assert forall|j: int| 0 <= j < events.len() implies 0 <= #[trigger] element_position(
        insertions,
        j,
    ) < spliced(events, insertions).len() && spliced(events, insertions)[element_position(
        insertions,
        j,
    )] == events[j] by {
        if n > 0 {
            lemma_count_bounds(insertions, n, j, 0);
        }
    }
    assert forall|i: int, j: int| 0 <= i < j < events.len() implies #[trigger] element_position(
        insertions,
        i,
    ) < #[trigger] element_position(insertions, j) by {
        lemma_count_monotone(insertions, n, i, j);
    }
    assert forall|k: int, l: int| 0 <= k < l < insertions.len() implies #[trigger] fragment_position(
        insertions,
        k,
    ) < #[trigger] fragment_position(insertions, l) by {
        assert(insertions[k].0 <= insertions[l].0);
    }
    assert forall|k: int, j: int|
        0 <= k < insertions.len() && 0 <= j < events.len() implies (#[trigger] element_position(
        insertions,
        j,
    ) < #[trigger] fragment_position(insertions, k) <==> j < insertions[k].0) by {
        lemma_count_bounds(insertions, n, j, k);
    }
}

} // verus!
