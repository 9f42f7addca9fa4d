use vtext::dom::Document;
use vtext::vtext::VText;

#[test]
fn should_display_text() {
    let text = VText::text("This is a very fine day!");
    assert_eq!(text.display(), "This is a very fine day!");
}

#[test]
fn should_display_comment() {
    let comment = VText::comment("Something to remind the hacky users.");
    assert_eq!(
        comment.display(),
        "<!--Something to remind the hacky users.-->"
    );
}

#[test]
fn should_display_empty_text() {
    let text = VText::text("");
    assert_eq!(text.display(), "");
}

#[test]
fn should_display_empty_comment() {
    let comment = VText::comment("");
    assert_eq!(comment.display(), "<!---->");
}

#[test]
fn fresh_leaves_are_detached() {
    let text = VText::text("x");
    let comment = VText::comment("y");
    assert_eq!(text.node(), None);
    assert_eq!(comment.node(), None);
}

#[test]
fn should_patch_container_with_new_text() {
    let mut doc = Document::new();
    let div = doc.create_element();
    let mut vtext = VText::text("Hello World! It is nice to render.");
    vtext
        .patch(None, &mut doc, div, None)
        .expect("To patch the div");

    assert_eq!(doc.inner_html(div), "Hello World! It is nice to render.");
}

#[test]
fn should_patch_container_with_text_update() {
    let mut doc = Document::new();
    let div = doc.create_element();
    let mut vtext = VText::text("Hello World! It is nice to render.");
    vtext.patch(None, &mut doc, div, None).expect("To patch div");

    assert_eq!(doc.inner_html(div), "Hello World! It is nice to render.");

    let mut updated = VText::text("How you doing?");
    updated
        .patch(Some(vtext), &mut doc, div, None)
        .expect("To patch div");

    assert_eq!(doc.inner_html(div), "How you doing?");
}

#[test]
fn should_patch_container_with_new_comment() {
    let mut doc = Document::new();
    let div = doc.create_element();
    let mut comment = VText::comment("This is a comment");
    comment
        .patch(None, &mut doc, div, None)
        .expect("To patch div");

    assert_eq!(doc.inner_html(div), "<!--This is a comment-->");
}

#[test]
fn should_patch_container_with_new_text_on_comment() {
    let mut doc = Document::new();
    let div = doc.create_element();
    let mut comment = VText::comment("This is a comment");
    comment
        .patch(None, &mut doc, div, None)
        .expect("To patch div");

    assert_eq!(doc.inner_html(div), "<!--This is a comment-->");

    let mut text = VText::text("This is a text");
    text.patch(Some(comment), &mut doc, div, None)
        .expect("To patch div");

    assert_eq!(doc.inner_html(div), "This is a text");
}

#[test]
fn should_patch_container_with_new_comment_on_text() {
    let mut doc = Document::new();
    let div = doc.create_element();
    let mut text = VText::text("plain");
    text.patch(None, &mut doc, div, None).expect("To patch div");

    let mut comment = VText::comment("now a comment");
    comment
        .patch(Some(text), &mut doc, div, None)
        .expect("To patch div");

    assert_eq!(doc.inner_html(div), "<!--now a comment-->");
}

#[test]
fn update_preserves_node_identity() {
    let mut doc = Document::new();
    let div = doc.create_element();
    let mut first = VText::text("Hello World! It is nice to render.");
    first.patch(None, &mut doc, div, None).expect("To patch div");
    let before = first.node();
    assert!(before.is_some());

    let mut second = VText::text("How you doing?");
    second
        .patch(Some(first), &mut doc, div, None)
        .expect("To patch div");

    assert_eq!(second.node(), before);
    assert_eq!(doc.inner_html(div), "How you doing?");
}

#[test]
fn noop_update_keeps_content_and_identity() {
    let mut doc = Document::new();
    let div = doc.create_element();
    let mut first = VText::text("steady");
    first.patch(None, &mut doc, div, None).expect("To patch div");
    let before = first.node();

    let mut second = VText::text("steady");
    second
        .patch(Some(first), &mut doc, div, None)
        .expect("To patch div");

    assert_eq!(second.node(), before);
    assert_eq!(doc.inner_html(div), "steady");
}

#[test]
fn patch_into_missing_parent_errors() {
    let mut doc = Document::new();
    let mut vtext = VText::text("nowhere to go");
    let r = vtext.patch(None, &mut doc, 0, None);
    assert!(r.is_err());
    assert_eq!(vtext.node(), None);
}

#[test]
fn patch_before_missing_reference_errors() {
    let mut doc = Document::new();
    let div = doc.create_element();
    let mut vtext = VText::text("misplaced");
    let r = vtext.patch(None, &mut doc, div, Some(7));
    assert!(r.is_err());
    assert_eq!(vtext.node(), None);
    assert_eq!(doc.inner_html(div), "");
}

#[test]
fn patch_before_sibling_inserts_in_front() {
    let mut doc = Document::new();
    let div = doc.create_element();
    let mut tail = VText::text("tail");
    tail.patch(None, &mut doc, div, None).expect("To patch div");
    let anchor = tail.node().expect("tail is attached");

    let mut head = VText::text("head ");
    head.patch(None, &mut doc, div, Some(anchor))
        .expect("To patch div");

    assert_eq!(doc.inner_html(div), "head tail");
}

#[test]
fn remove_detaches_the_live_node() {
    let mut doc = Document::new();
    let div = doc.create_element();
    let mut first = VText::text("one");
    first.patch(None, &mut doc, div, None).expect("To patch div");
    let mut second = VText::comment("two");
    second.patch(None, &mut doc, div, None).expect("To patch div");
    assert_eq!(doc.inner_html(div), "one<!--two-->");

    first.remove(&mut doc, div).expect("To remove first");
    assert_eq!(doc.inner_html(div), "<!--two-->");
}

#[test]
fn remove_from_wrong_parent_errors() {
    let mut doc = Document::new();
    let div = doc.create_element();
    let other = doc.create_element();
    let mut leaf = VText::text("housed");
    leaf.patch(None, &mut doc, div, None).expect("To patch div");

    let r = leaf.remove(&mut doc, other);
    assert!(r.is_err());
    assert_eq!(doc.inner_html(div), "housed");
}

#[test]
fn reorder_moves_to_the_end() {
    let mut doc = Document::new();
    let div = doc.create_element();
    let mut first = VText::text("a");
    first.patch(None, &mut doc, div, None).expect("To patch div");
    let mut second = VText::text("b");
    second.patch(None, &mut doc, div, None).expect("To patch div");
    assert_eq!(doc.inner_html(div), "ab");

    first.reorder(&mut doc, div, None).expect("To reorder");
    assert_eq!(doc.inner_html(div), "ba");
}

#[test]
fn reorder_moves_before_a_sibling() {
    let mut doc = Document::new();
    let div = doc.create_element();
    let mut first = VText::text("a");
    first.patch(None, &mut doc, div, None).expect("To patch div");
    let mut second = VText::text("b");
    second.patch(None, &mut doc, div, None).expect("To patch div");
    let anchor = first.node().expect("first is attached");

    second
        .reorder(&mut doc, div, Some(anchor))
        .expect("To reorder");
    assert_eq!(doc.inner_html(div), "ba");
}

#[test]
fn reorder_before_missing_reference_errors() {
    let mut doc = Document::new();
    let div = doc.create_element();
    let mut leaf = VText::text("stuck");
    leaf.patch(None, &mut doc, div, None).expect("To patch div");

    let r = leaf.reorder(&mut doc, div, Some(99));
    assert!(r.is_err());
    assert_eq!(doc.inner_html(div), "stuck");
}

#[test]
fn kind_change_before_sibling_keeps_position() {
    let mut doc = Document::new();
    let div = doc.create_element();
    let mut left = VText::comment("left");
    left.patch(None, &mut doc, div, None).expect("To patch div");
    let mut right = VText::text("right");
    right.patch(None, &mut doc, div, None).expect("To patch div");
    assert_eq!(doc.inner_html(div), "<!--left-->right");

    let anchor = right.node().expect("right is attached");
    let mut replacement = VText::text("left");
    replacement
        .patch(Some(left), &mut doc, div, Some(anchor))
        .expect("To patch div");
    assert_eq!(doc.inner_html(div), "leftright");
}

#[test]
fn reorder_before_itself_changes_nothing() {
    let mut doc = Document::new();
    let div = doc.create_element();
    let mut first = VText::text("a");
    first.patch(None, &mut doc, div, None).expect("To patch div");
    let mut second = VText::text("b");
    second.patch(None, &mut doc, div, None).expect("To patch div");
    let own = first.node().expect("first is attached");

    first.reorder(&mut doc, div, Some(own)).expect("To reorder");
    assert_eq!(doc.inner_html(div), "ab");
}
