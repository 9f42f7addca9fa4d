//! Rendering laws of the leaf protocol.
//!
//! `patch` describes its outcome exactly, over the document views of
//! `crate::dom`.  The lemmas here carry those outcomes the last step to what
//! an observer of the host document sees: the serialized content of the
//! parent element after an insertion, an in-place update, or a kind change.

use crate::dom::{detach, display_of, first_pos, html_seq, insert_children, Document, NodeModel};
use crate::vtext::VText;
use vstd::prelude::*;
use vstd::seq_lib::*;

verus! {

/// Patching a fresh leaf (arena view `nm`, fresh handle `newid`) into an
/// element with no children leaves the element rendering exactly the leaf's
/// serialization, exactly once.
pub proof fn lemma_insert_new_into_empty(ns: Seq<NodeModel>, nm: NodeModel, newid: usize)
    requires
        newid as int == ns.len(),
    ensures
        insert_children(Seq::<usize>::empty(), newid, None) == seq![newid],
        html_seq(ns.push(nm), seq![newid]) == display_of(nm.is_comment, nm.text),
{
    assert(insert_children(Seq::<usize>::empty(), newid, None) =~= seq![newid]);
    let kids = seq![newid];
    let ns2 = ns.push(nm);
    assert(kids.len() == 1);
    assert(kids.last() == newid);
    assert(kids.drop_last() =~= Seq::<usize>::empty());
    assert(html_seq(ns2, kids.drop_last()) == Seq::<char>::empty());
    assert(ns2[newid as int] == nm);
    assert(html_seq(ns2, kids) == html_seq(ns2, kids.drop_last()) + display_of(
        nm.is_comment,
        nm.text,
    ));
    assert(Seq::<char>::empty() + display_of(nm.is_comment, nm.text) =~= display_of(
        nm.is_comment,
        nm.text,
    ));
}

/// Updating a leaf in place (its live node `nid` takes the view `nm`) over
/// an element that shows exactly that node keeps the node where it is and
/// renders exactly the new content.
pub proof fn lemma_update_in_place(ns: Seq<NodeModel>, nid: usize, nm: NodeModel)
    requires
        (nid as int) < ns.len(),
    ensures
        html_seq(ns.update(nid as int, nm), seq![nid]) == display_of(nm.is_comment, nm.text),
{
    let kids = seq![nid];
    let ns2 = ns.update(nid as int, nm);
    assert(kids.len() == 1);
    assert(kids.last() == nid);
    assert(kids.drop_last() =~= Seq::<usize>::empty());
    assert(html_seq(ns2, kids.drop_last()) == Seq::<char>::empty());
    assert(ns2[nid as int] == nm);
    assert(html_seq(ns2, kids) == html_seq(ns2, kids.drop_last()) + display_of(
        nm.is_comment,
        nm.text,
    ));
    assert(Seq::<char>::empty() + display_of(nm.is_comment, nm.text) =~= display_of(
        nm.is_comment,
        nm.text,
    ));
}

/// A kind change over an element that shows exactly the previous leaf's
/// node (`oldid`) removes that node entirely — no residue — and the element
/// renders exactly the new leaf's serialization.
pub proof fn lemma_kind_change_replaces(
    ns: Seq<NodeModel>,
    oldid: usize,
    nm: NodeModel,
    newid: usize,
)
    requires
        (oldid as int) < ns.len(),
        newid as int == ns.len(),
    ensures
        detach(seq![oldid], oldid) == Seq::<usize>::empty(),
        insert_children(detach(seq![oldid], oldid), newid, None) == seq![newid],
        !insert_children(detach(seq![oldid], oldid), newid, None).contains(oldid),
        html_seq(ns.push(nm), insert_children(detach(seq![oldid], oldid), newid, None))
            == display_of(nm.is_comment, nm.text),
{
    let kids = seq![oldid];
    assert(kids.contains(oldid)) by {
        assert(kids[0] == oldid);
    }
    kids.index_of_first_ensures(oldid);
    assert(first_pos(kids, oldid) == 0);
    assert(detach(kids, oldid) =~= Seq::<usize>::empty());
    if seq![newid].contains(oldid) {
        let i = choose|i: int| 0 <= i < 1 && seq![newid][i] == oldid;
        assert(newid == oldid);
    }
    lemma_insert_new_into_empty(ns, nm, newid);
}

/// Insert-new, at the document level: the hypotheses are exactly what
/// `VText::patch` ensures on success without a previous leaf, appended into
/// an element `parent` of `doc0` that had no children; the conclusion is
/// that `doc1`, the document after the call, renders under `parent` exactly
/// the leaf's serialization, exactly once.
pub proof fn lemma_patch_insert_into_empty_renders(
    doc0: Document,
    doc1: Document,
    v: VText,
    parent: usize,
)
    requires
        doc0.valid_elem(parent as int),
        doc0.children()[parent as int].len() == 0,
        v.attached(),
        v.live_node() as int == doc0.node_count(),
        doc1.nodes() == doc0.nodes().push(v.model()),
        doc1.children() == doc0.children().update(
            parent as int,
            insert_children(doc0.children()[parent as int], v.live_node(), None),
        ),
    ensures
        doc1.children()[parent as int] == seq![v.live_node()],
        doc1.inner_html_of(parent as int) == v.display_view(),
{
    assert(doc0.children()[parent as int] =~= Seq::<usize>::empty());
    lemma_insert_new_into_empty(doc0.nodes(), v.model(), v.live_node());
}

/// Update-in-place, at the document level: the hypotheses are exactly what
/// `VText::patch` ensures when the previous leaf `p` has the same kind —
/// the child list did not move, `v` took over `p`'s live node, and that
/// node's text was overwritten only where the content differed.  Over an
/// element showing exactly `p`'s node, the document after the call renders
/// exactly `v`'s serialization.
pub proof fn lemma_patch_update_renders(
    doc0: Document,
    doc1: Document,
    v: VText,
    p: VText,
    parent: usize,
)
    requires
        doc0.valid_elem(parent as int),
        p.live(doc0),
        doc0.children()[parent as int] == seq![p.live_node()],
        v.spec_is_comment() == p.spec_is_comment(),
        v.spec_node() == p.spec_node(),
        doc1.children() == doc0.children(),
        (if v.spec_content() == p.spec_content() {
            doc1.nodes() == doc0.nodes()
        } else {
            doc1.nodes() == doc0.nodes().update(p.live_node() as int, v.model())
        }),
    ensures
        doc1.children()[parent as int] == seq![p.live_node()],
        doc1.inner_html_of(parent as int) == v.display_view(),
{
    let nid = p.live_node();
    if v.spec_content() == p.spec_content() {
        assert(doc0.nodes().update(nid as int, v.model()) =~= doc0.nodes());
    }
    lemma_update_in_place(doc0.nodes(), nid, v.model());
}

/// Kind-change, at the document level: the hypotheses are exactly what
/// `VText::patch` ensures on success when the previous leaf `p` has the
/// other kind and its node was removed before `v`'s fresh node was
/// appended.  Over an element showing exactly `p`'s node, the document
/// after the call renders exactly `v`'s serialization, with no residue of
/// the old node.
pub proof fn lemma_patch_kind_change_renders(
    doc0: Document,
    doc1: Document,
    v: VText,
    p: VText,
    parent: usize,
)
    requires
        doc0.valid_elem(parent as int),
        p.live(doc0),
        doc0.children()[parent as int] == seq![p.live_node()],
        v.attached(),
        v.live_node() as int == doc0.node_count(),
        doc1.nodes() == doc0.nodes().push(v.model()),
        doc1.children() == doc0.children().update(
            parent as int,
            insert_children(
                detach(doc0.children()[parent as int], p.live_node()),
                v.live_node(),
                None,
            ),
        ),
    ensures
        doc1.children()[parent as int] == seq![v.live_node()],
        !doc1.children()[parent as int].contains(p.live_node()),
        doc1.inner_html_of(parent as int) == v.display_view(),
{
    lemma_kind_change_replaces(doc0.nodes(), p.live_node(), v.model(), v.live_node());
}

} // verus!
