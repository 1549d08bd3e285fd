//! The HTML that the renderer places around code blocks and their output.

use vstd::prelude::*;

verus! {

/// The opening of a section of the page that can be folded, with a bold
/// title and a muted line of text beside it.
pub open spec fn section_begin(title: Seq<char>, subtext: Seq<char>) -> Seq<char> {
    "\n            <li class=\"uk-open\">\n                <a class=\"uk-accordion-title uk-text-small\" href=\"#\"><span class=\"uk-text-bold\">"@
        + title + "</span> <span class=\"uk-text-muted\">"@ + subtext
        + "</span></a>\n                <div class=\"uk-accordion-content\">"@
}

/// The closing of a section opened by [`section_begin`].
pub open spec fn section_end() -> Seq<char> {
    "\n                </div>\n            </li>"@
}

/// The opening of the list that holds the sections of one code block.
pub open spec fn block_begin(id: Seq<char>) -> Seq<char> {
    "<ul uk-accordion=\"multiple: true\" id=\""@ + id + "\">"@
}

/// The closing of the list opened by [`block_begin`].
pub open spec fn block_end() -> Seq<char> {
    "</ul>"@
}

/// A section that shows what a command printed, under the given title
/// and with the command beside it.
pub open spec fn output_section(title: Seq<char>, cmd: Seq<char>, output: Seq<char>) -> Seq<char> {
    section_begin(title, cmd) + "<pre><code class=\"language-nohighlight hljs\">"@ + output
        + "</code></pre>"@ + section_end()
}

/// The message that stands in for output when the container could not be
/// built, started or used.
pub open spec fn internal_error_text() -> Seq<char> {
    "Internal server error"@
}

/// The message that stands in for the error stream of a command that
/// could not be run in the container.
pub open spec fn exec_error_text() -> Seq<char> {
    "BashableNotes internal error"@
}

} // verus!
