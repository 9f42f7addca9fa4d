//! The text/comment leaf of the virtual-DOM tree.
//!
//! A leaf carries immutable content and a kind (text or comment), and it
//! owns the handle of the live document node it materialized to, once it has
//! been patched in.  The diff engine drives a leaf only through the protocol
//! here: `patch` reconciles it against the leaf previously occupying its
//! position, `reorder` moves its live node, `remove` takes the live node out
//! of the document, and `node` answers where it sits.

use crate::dom::{
    detach, display_of, insert_children, node_model, Document, NodeModel, PlatformError,
};
use vstd::prelude::*;
use vstd::string::*;

verus! {

/// A text or comment leaf of the virtual tree.
pub struct VText {
    /// The content of a text string.
    content: String,
    /// Whether the content is a comment.
    is_comment: bool,
    /// Handle of the live document node, once attached.
    node: Option<usize>,
}

impl VText {
    /// The characters this leaf carries.
    pub closed spec fn spec_content(self) -> Seq<char> {
        self.content@
    }

    /// Whether this leaf is a comment rather than a text run.
    pub closed spec fn spec_is_comment(self) -> bool {
        self.is_comment
    }

    /// The live-node handle, absent until the leaf is first patched in.
    pub closed spec fn spec_node(self) -> Option<usize> {
        self.node
    }

    /// The serialization of this leaf.
    pub open spec fn display_view(self) -> Seq<char> {
        display_of(self.spec_is_comment(), self.spec_content())
    }

    /// The arena view of the node this leaf materializes to.
    pub open spec fn model(self) -> NodeModel {
        node_model(self.spec_is_comment(), self.spec_content())
    }

    /// The leaf has been materialized into the document at least once.
    pub open spec fn attached(self) -> bool {
        self.spec_node() is Some
    }

    /// The handle of the live node; meaningful only when attached.
    pub open spec fn live_node(self) -> usize {
        self.spec_node()->Some_0
    }

    /// A live leaf: attached, and its live node exists in `doc` with the
    /// leaf's kind and content.  A successful `patch` establishes this, and
    /// the engine keeps it until the leaf is discarded.
    pub open spec fn live(self, doc: Document) -> bool {
        &&& self.attached()
        &&& doc.valid_node(self.live_node() as int)
        &&& doc.nodes()[self.live_node() as int] == self.model()
    }

    /// Create a textual leaf, not yet attached.  Any content is legal.
    pub fn text(content: &str) -> (v: VText)
        ensures
            !v.spec_is_comment(),
            v.spec_content() == content@,
            !v.attached(),
    {
        VText { content: String::from_str(content), is_comment: false, node: None }
    }

    /// Create a comment leaf, not yet attached.  Any content is legal.
    pub fn comment(content: &str) -> (v: VText)
        ensures
            v.spec_is_comment(),
            v.spec_content() == content@,
            !v.attached(),
    {
        VText { content: String::from_str(content), is_comment: true, node: None }
    }

    /// Serialize the leaf: `<!--content-->` for a comment, the raw content
    /// otherwise.  No escaping is performed.
    pub fn display(&self) -> (r: String)
        ensures
            r@ == self.display_view(),
    {
        if self.is_comment {
            let mut s = String::from_str("<!--");
            s.append(self.content.as_str());
            s.append("-->");
            s
        } else {
            self.content.clone()
        }
    }

    /// The live-node handle, if the leaf has been attached.  Pure query;
    /// sibling handlers use it to compute reference nodes.
    pub fn node(&self) -> (r: Option<usize>)
        ensures
            r == self.spec_node(),
    {
        self.node
    }

    /// Materialize a fresh live node for this leaf and place it under
    /// `parent`, before `next` or at the end, recording the handle on
    /// success.
    fn patch_new(&mut self, doc: &mut Document, parent: usize, next: Option<usize>) -> (r: Result<
        (),
        PlatformError,
    >)
        requires
            old(doc).wf(),
        ensures
            final(doc).wf(),
            final(self).spec_is_comment() == old(self).spec_is_comment(),
            final(self).spec_content() == old(self).spec_content(),
            final(doc).nodes() == old(doc).nodes().push(old(self).model()),
            r is Ok <==> old(doc).valid_elem(parent as int) && (next matches Some(nx)
                ==> old(doc).children()[parent as int].contains(nx)),
            r is Ok ==> final(self).attached() && final(self).live_node() as int == old(doc).node_count() && final(doc).children() == old(doc).children().update(
                parent as int,
                insert_children(
                    old(doc).children()[parent as int],
                    final(self).live_node(),
                    next,
                ),
            ),
            r is Err ==> final(self).spec_node() == old(self).spec_node() && final(doc).children()
                == old(doc).children(),
    {
        let ghost kids = old(doc).children()[parent as int];
        let nid: usize = if self.is_comment {
            doc.create_comment(self.content.clone())
        } else {
            doc.create_text_node(self.content.clone())
        };
        proof {
            if old(doc).valid_elem(parent as int) {
                if kids.contains(nid) {
                    let j = choose|j: int| 0 <= j < kids.len() && kids[j] == nid;
                    assert((old(doc).children()[parent as int][j] as int) < old(doc).node_count());
                }
                assert(!kids.contains(nid));
            }
        }
        let res: Result<(), PlatformError> = match next {
            Option::Some(nx) => doc.insert_before(parent, nid, nx),
            Option::None => doc.append_child(parent, nid),
        };
        match res {
            Result::Ok(u) => {
                self.node = Some(nid);
                Ok(u)
            },
            Result::Err(e) => Err(e),
        }
    }

    /// Reconcile this leaf against the leaf previously occupying its
    /// position, mutating the live tree minimally.
    ///
    /// Without a previous leaf, a fresh live node is created and placed
    /// before `next` (or appended).  With a previous leaf of the same kind,
    /// its live node is reused: the node's text is overwritten only when the
    /// content differs, and nothing moves.  With a previous leaf of the
    /// other kind, the old live node is removed and a fresh one is inserted,
    /// since the host cannot reinterpret a text node as a comment or back.
    /// The previous leaf must itself be live — patching against a leaf that
    /// was never inserted is a tree-consistency bug, not a platform error —
    /// and it is consumed: ownership of its live node passes to this leaf.
    pub fn patch(
        &mut self,
        prev: Option<VText>,
        doc: &mut Document,
        parent: usize,
        next: Option<usize>,
    ) -> (r: Result<(), PlatformError>)
        requires
            old(doc).wf(),
            prev matches Some(p) ==> p.live(*old(doc)),
        ensures
            final(doc).wf(),
            final(self).spec_is_comment() == old(self).spec_is_comment(),
            final(self).spec_content() == old(self).spec_content(),
            r is Ok ==> final(self).live(*final(doc)),
            (match prev {
                Option::None => {
                    &&& final(doc).nodes() == old(doc).nodes().push(old(self).model())
                    &&& (r is Ok <==> old(doc).valid_elem(parent as int) && (next matches Some(nx)
                        ==> old(doc).children()[parent as int].contains(nx)))
                    &&& (r is Ok ==> final(self).attached() && final(self).live_node() as int
                        == old(doc).node_count() && final(doc).children() == old(doc).children().update(
                        parent as int,
                        insert_children(
                            old(doc).children()[parent as int],
                            final(self).live_node(),
                            next,
                        ),
                    ))
                    &&& (r is Err ==> final(self).spec_node() == old(self).spec_node() && final(doc).children() == old(doc).children())
                },
                Option::Some(p) => {
                    if p.spec_is_comment() == old(self).spec_is_comment() {
                        &&& r is Ok
                        &&& final(self).spec_node() == p.spec_node()
                        &&& final(doc).children() == old(doc).children()
                        &&& (old(self).spec_content() == p.spec_content() ==> final(doc).nodes()
                            == old(doc).nodes())
                        &&& (old(self).spec_content() != p.spec_content() ==> final(doc).nodes()
                            == old(doc).nodes().update(p.live_node() as int, old(self).model()))
                    } else {
                        let kids = old(doc).children()[parent as int];
                        let kids2 = detach(kids, p.live_node());
                        let removed = old(doc).valid_elem(parent as int) && kids.contains(
                            p.live_node(),
                        );
                        &&& (r is Ok <==> removed && (next matches Some(nx) ==> kids2.contains(
                            nx,
                        )))
                        &&& (!removed ==> final(doc).nodes() == old(doc).nodes() && final(doc).children() == old(doc).children() && final(self).spec_node() == old(self).spec_node())
                        &&& (removed ==> final(doc).nodes() == old(doc).nodes().push(
                            old(self).model(),
                        ))
                        &&& (removed && r is Ok ==> final(self).attached() && final(self).live_node() as int == old(doc).node_count() && final(doc).children()
                            == old(doc).children().update(
                            parent as int,
                            insert_children(kids2, final(self).live_node(), next),
                        ))
                        &&& (removed && r is Err ==> final(doc).children() == old(doc).children().update(parent as int, kids2) && final(self).spec_node() == old(self).spec_node())
                    }
                },
            }),
    {
        match prev {
            Option::Some(p) => {
                if self.is_comment == p.is_comment {
                    let old_node = p.node.unwrap();
                    if !(self.content == p.content) {
                        doc.set_text_content(old_node, self.content.clone());
                    }
                    self.node = Some(old_node);
                    Ok(())
                } else {
                    match p.remove(doc, parent) {
                        Result::Ok(u) => self.patch_new(doc, parent, next),
                        Result::Err(e) => Err(e),
                    }
                }
            },
            Option::None => self.patch_new(doc, parent, next),
        }
    }

    /// Move the already-attached live node to immediately before `next`, or
    /// to the end of `parent`, creating and destroying nothing.  Reordering
    /// a leaf that was never inserted is a tree-consistency bug, excluded by
    /// the precondition.
    pub fn reorder(&self, doc: &mut Document, parent: usize, next: Option<usize>) -> (r: Result<
        (),
        PlatformError,
    >)
        requires
            old(doc).wf(),
            self.attached(),
        ensures
            final(doc).wf(),
            final(doc).nodes() == old(doc).nodes(),
            r is Ok <==> old(doc).valid_elem(parent as int) && old(doc).valid_node(
                self.live_node() as int,
            ) && (next matches Some(nx) ==> old(doc).children()[parent as int].contains(nx)),
            r is Err ==> final(doc).children() == old(doc).children(),
            r is Ok && next == Some(self.live_node()) ==> final(doc).children() == old(doc).children(),
            r is Ok && next != Some(self.live_node()) ==> final(doc).children() == old(doc).children().update(
                parent as int,
                insert_children(
                    detach(old(doc).children()[parent as int], self.live_node()),
                    self.live_node(),
                    next,
                ),
            ),
    {
        let nid = self.node.unwrap();
        match next {
            Option::Some(nx) => doc.insert_before(parent, nid, nx),
            Option::None => doc.append_child(parent, nid),
        }
    }

    /// Remove the attached live node from `parent`.  The leaf keeps its
    /// fields; the caller is expected to discard it afterward.  Removing a
    /// leaf that was never inserted is a tree-consistency bug, excluded by
    /// the precondition.
    pub fn remove(&self, doc: &mut Document, parent: usize) -> (r: Result<(), PlatformError>)
        requires
            old(doc).wf(),
            self.attached(),
        ensures
            final(doc).wf(),
            final(doc).nodes() == old(doc).nodes(),
            r is Ok <==> old(doc).valid_elem(parent as int)
                && old(doc).children()[parent as int].contains(self.live_node()),
            r is Ok ==> final(doc).children() == old(doc).children().update(
                parent as int,
                detach(old(doc).children()[parent as int], self.live_node()),
            ),
            r is Err ==> final(doc).children() == old(doc).children(),
    {
        let nid = self.node.unwrap();
        doc.remove_child(parent, nid)
    }
}

} // verus!
