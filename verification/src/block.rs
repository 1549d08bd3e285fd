//! One fenced code block of a note: where it stands in the event sequence,
//! its directives and its source text.

use vstd::prelude::*;
use crate::options::{default_options, CodeBlockOptions, OptionsView};
use crate::text::{decimal, to_decimal};

verus! {

/// A fenced code block.
///
/// `end_index` is `0` until the block's closing event has been seen; a
/// closed block always has `start_index < end_index`, so `0` cannot be
/// mistaken for a position.
#[derive(Debug)]
pub struct CodeBlock {
    /// The block's ordinal among the blocks of its note, from `0`.
    pub index: usize,
    /// The directives read from the block's first line.
    pub options: CodeBlockOptions,
    /// The position of the event that opens the block.
    pub start_index: usize,
    /// The position of the event that closes the block, or `0`.
    pub end_index: usize,
    /// The block's source text.
    pub code: String,
}

/// The mathematical content of a [`CodeBlock`].
pub struct BlockView {
    pub index: nat,
    pub options: OptionsView,
    pub start_index: nat,
    pub end_index: nat,
    pub code: Seq<char>,
}

impl View for CodeBlock {
    type V = BlockView;

    open spec fn view(&self) -> BlockView {
        BlockView {
            index: self.index as nat,
            options: self.options@,
            start_index: self.start_index as nat,
            end_index: self.end_index as nat,
            code: self.code@,
        }
    }
}

impl BlockView {
    /// A block that has just been opened: no directives, no code, no end.
    pub open spec fn opened(index: nat, start_index: nat) -> BlockView {
        BlockView { index, options: default_options(), start_index, end_index: 0, code: Seq::empty() }
    }

    /// Whether the closing event has been recorded.
    pub open spec fn is_closed(self) -> bool {
        self.end_index != 0
    }

    /// Whether the block asks for a command to be run.
    pub open spec fn is_directed(self) -> bool {
        self.options.cmd is Some
    }

    /// The positions are consistent: a closed block ends after it starts.
    pub open spec fn well_formed(self) -> bool {
        self.is_closed() ==> self.start_index < self.end_index
    }

    /// The identifier under which the block appears in the page.
    pub open spec fn id(self) -> Seq<char> {
        "block-"@ + decimal(self.index)
    }
}

/// The blocks of a list, as mathematical values.
pub open spec fn blocks_view(blocks: Seq<CodeBlock>) -> Seq<BlockView> {
    Seq::new(blocks.len(), |i: int| blocks[i]@)
}

impl CodeBlock {
    /// A block opened by the event at `start_index`, the `index`-th of its
    /// note.
    pub fn new(index: usize, start_index: usize) -> (block: CodeBlock)
        ensures
            block@ == BlockView::opened(index as nat, start_index as nat),
    {
        CodeBlock {
            index,
            options: CodeBlockOptions::default(),
            start_index,
            end_index: 0,
            code: String::new(),
        }
    }

    /// Appends `code` to the block's source text.
    pub fn push_code(&mut self, code: &str)
        ensures
            final(self)@ == (BlockView { code: old(self)@.code + code@, ..old(self)@ }),
    {
        self.code.append(code);
    }

    /// The identifier under which the block appears in the page: `block-`
    /// followed by the block's ordinal.
    pub fn id(&self) -> (id: String)
        ensures
            id@ == self@.id(),
    {
        let mut id = String::from_str("block-");
        let number = to_decimal(self.index);
        id.append(number.as_str());
        id
    }

    /// Whether the closing event has been recorded.
    pub fn is_closed(&self) -> (closed: bool)
        ensures
            closed == self@.is_closed(),
    {
        self.end_index != 0
    }

    /// Whether the block asks for a command to be run.
    pub fn is_directed(&self) -> (directed: bool)
        ensures
            directed == self@.is_directed(),
    {
        self.options.cmd.is_some()
    }
}

impl Clone for CodeBlock {
    fn clone(&self) -> (copy: CodeBlock)
        ensures
            copy == *self,
    {
        CodeBlock {
            index: self.index,
            options: self.options.clone(),
            start_index: self.start_index,
            end_index: self.end_index,
            code: self.code.clone(),
        }
    }
}

} // verus!
