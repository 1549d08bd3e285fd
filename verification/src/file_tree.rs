//! The files and folders of the notes' directory, and the menu that shows
//! them.

use vstd::prelude::*;

verus! {

/// A file, or a folder with what it holds.
#[derive(Debug)]
pub enum FileTree {
    File { name: String, path: String },
    Folder { name: String, subtree: Vec<FileTree> },
}

/// The menu entry of a file: a link that opens the note at `path`, shown
/// under the file's name.
pub open spec fn file_item(path: Seq<char>, name: Seq<char>) -> Seq<char> {
    "\n                    <li>\n                        <a href=\"#\" onclick=\"goto('"@ + path
        + "')\"><span uk-icon=\"icon: file\" class=\"uk-margin-small-right\"></span>"@ + name
        + "</a>\n                    </li>"@
}

/// The opening of the menu entry of a folder.
pub open spec fn folder_item_begin(name: Seq<char>) -> Seq<char> {
    "\n                <li class=\"uk-parent\">\n                    <a href=\"#\">\n                        <span uk-icon=\"icon: folder\" class=\"uk-margin-small-right\"></span>"@
        + name + "</a>\n                "@
}

/// The opening of the list of what a folder holds.
pub open spec fn inner_menu_begin() -> Seq<char> {
    "<ul class=\"uk-nav-sub uk-nav-parent-icon\" uk-nav=\"multiple: true\">"@
}

/// The closing of the list of what a folder holds.
pub open spec fn inner_menu_end() -> Seq<char> {
    "</ul>"@
}

/// The closing of the menu entry of a folder.
pub open spec fn folder_item_end() -> Seq<char> {
    "</li>"@
}

/// The menu entry of one file or folder; a folder's entry holds the
/// entries of what the folder holds, in their order.
pub open spec fn entry_html(tree: FileTree) -> Seq<char>
    decreases tree,
{
    match tree {
        FileTree::File { name, path } => file_item(path@, name@),
        FileTree::Folder { name, subtree } => folder_item_begin(name@) + inner_menu_begin()
            + entries_html(subtree@, subtree@.len()) + inner_menu_end() + folder_item_end(),
    }
}

/// The menu entries of the first `n` of the trees, one after the other.
pub open spec fn entries_html(trees: Seq<FileTree>, n: nat) -> Seq<char>
    decreases trees, n,
{
    if n == 0 || n > trees.len() {
        Seq::empty()
    } else {
        entries_html(trees, (n - 1) as nat) + entry_html(trees[n - 1])
    }
}

/// The menu of the files and folders of a directory.
pub open spec fn menu_html(trees: Seq<FileTree>) -> Seq<char> {
    entries_html(trees, trees.len())
}

fn file_entry(path: &str, name: &str) -> (html: String)
    ensures
        html@ == file_item(path@, name@),
{
    let mut html = String::from_str(
        "\n                    <li>\n                        <a href=\"#\" onclick=\"goto('",
    );
    html.append(path);
    html.append("')\"><span uk-icon=\"icon: file\" class=\"uk-margin-small-right\"></span>");
    html.append(name);
    html.append("</a>\n                    </li>");
    html
}

fn folder_entry_begin(name: &str) -> (html: String)
    ensures
        html@ == folder_item_begin(name@),
{
    let mut html = String::from_str(
        "\n                <li class=\"uk-parent\">\n                    <a href=\"#\">\n                        <span uk-icon=\"icon: folder\" class=\"uk-margin-small-right\"></span>",
    );
    html.append(name);
    html.append("</a>\n                ");
    html
}

fn entry(tree: &FileTree) -> (html: String)
    ensures
        html@ == entry_html(*tree),
    decreases tree,
{
    match tree {
        FileTree::File { name, path } => file_entry(path.as_str(), name.as_str()),
        FileTree::Folder { name, subtree } => {
            let mut html = folder_entry_begin(name.as_str());
            html.append("<ul class=\"uk-nav-sub uk-nav-parent-icon\" uk-nav=\"multiple: true\">");
            let inner = build_file_tree(subtree);
            html.append(inner.as_str());
            html.append("</ul>");
            html.append("</li>");
            html
        },
    }
}

/// Writes the menu of the files and folders of a directory: an entry for
/// each, in the order given, folders with their content inside.
pub fn build_file_tree(trees: &Vec<FileTree>) -> (html: String)
    ensures
        html@ == menu_html(trees@),
    decreases trees,
{
    let mut html = String::new();
    let mut i: usize = 0;
    while i < trees.len()
        invariant
            i <= trees@.len(),
            html@ == entries_html(trees@, i as nat),
        decreases trees@.len() - i,
    {
        let item = entry(&trees[i]);
        html.append(item.as_str());
        i += 1;
    }
    html
}

} // verus!
