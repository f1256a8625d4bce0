use hired::doc_fmt::join_joinable_lines;

#[test]
fn md_join_normal_lines() {
    assert_eq!(&join_joinable_lines("just\nsome\ntext\nto\njoin"), "just some text to join\n",)
}

#[test]
fn md_join_list() {
    assert_eq!(&join_joinable_lines("- some\n+ list\nto\n* join"), "- some\n+ list to\n* join\n",)
}

#[test]
fn md_join_paragraph() {
    assert_eq!(
        &join_joinable_lines("hello\nworld\n\nnice weather,\neh?\n"),
        "hello world\n\nnice weather, eh?\n"
    )
}

#[test]
fn md_join_explicit_newlines() {
    assert_eq!(
        &join_joinable_lines("hello\nworld\\\nnice weather  \neh?\n"),
        "hello world\nnice weather\neh?\n"
    )
}

#[test]
fn md_join_codeblock() {
    assert_eq!(
        &join_joinable_lines(
            "Code:\n    source code
Other code:\n\tsourcerer\ncode
Other other code:\n```\nsourcerest\n```\ncode\nend\n"
        ),
        "Code:\n    source code
Other code:\n\tsourcerer\ncode \
Other other code:\n```\nsourcerest\n```\ncode\nend\n"
    )
}

#[test]
fn md_join_blockquote() {
    assert_eq!(
        &join_joinable_lines("> Hello world!\nNice weather!\n>Is it?\nYep!"),
        "> Hello world!\nNice weather!\n>Is it?\nYep!\n"
    )
}

#[test]
fn md_join_ordered_list() {
    assert_eq!(
        &join_joinable_lines("1. Fine\nstuff\n244. Okay-ish other\nstuff\n. Not a\nlist\nentry.\n"),
        "1. Fine stuff\n244. Okay-ish other stuff . Not a list entry.\n"
    )
}

#[test]
fn md_join_trailing_break_markers_dropped() {
    // The two-space and backslash markers themselves disappear from the
    // output, and the line after them keeps its own line.
    assert_eq!(&join_joinable_lines("a  \nb\nc"), "a\nb c\n");
    assert_eq!(&join_joinable_lines("a\\\nb"), "a\nb\n");
}
