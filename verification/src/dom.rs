//! A model of the host document that the reconciliation engine mutates.
//!
//! The engine only ever asks the host for a small capability set: create a
//! text node, create a comment node, insert a node before a reference child,
//! append a child, remove a child, and overwrite a node's text content.  The
//! `Document` type holds exactly what those capabilities read and write: an
//! arena of text/comment nodes and, for each element, the ordered list of
//! node handles hanging under it.  A handle is an index into the arena, so a
//! live node keeps its identity across moves and content updates.

use vstd::prelude::*;
use vstd::seq_lib::*;
use vstd::string::*;

verus! {

/// Error reported by the host document when an operation cannot be carried
/// out: an invalid node or element handle, or a reference node that is not a
/// child of the given parent.
#[derive(Clone, Copy, PartialEq, Eq, Structural, Debug)]
pub struct PlatformError;

/// One text or comment node of the document arena.
struct NodeData {
    is_comment: bool,
    content: String,
}

/// The mathematical view of one arena node: its kind and its characters.
pub ghost struct NodeModel {
    pub is_comment: bool,
    pub text: Seq<char>,
}

/// The view of a node with the given kind and content.
pub open spec fn node_model(is_comment: bool, text: Seq<char>) -> NodeModel {
    NodeModel { is_comment, text }
}

/// Serialized form of a node: `<!--text-->` for a comment, the raw text
/// otherwise.  The document performs no escaping.
pub open spec fn display_of(is_comment: bool, text: Seq<char>) -> Seq<char> {
    if is_comment {
        "<!--"@ + text + "-->"@
    } else {
        text
    }
}

/// Serialized form of the children `kids`, left to right, over the arena `ns`.
pub open spec fn html_seq(ns: Seq<NodeModel>, kids: Seq<usize>) -> Seq<char>
    decreases kids.len(),
{
    if kids.len() == 0 {
        Seq::<char>::empty()
    } else {
        html_seq(ns, kids.drop_last()) + display_of(
            ns[kids.last() as int].is_comment,
            ns[kids.last() as int].text,
        )
    }
}

/// Position of the first occurrence of `x` in `s`; meaningful only when
/// `s.contains(x)`.
pub open spec fn first_pos(s: Seq<usize>, x: usize) -> int {
    s.index_of_first(x)->Some_0
}

/// `s` with its first occurrence of `x` removed, if any.  Insertion into the
/// document detaches the node from its old position first, so a node never
/// occupies two positions of one parent.
pub open spec fn detach(s: Seq<usize>, x: usize) -> Seq<usize> {
    if s.contains(x) {
        s.remove(first_pos(s, x))
    } else {
        s
    }
}

/// The child list that results from placing the (detached) handle `newid`
/// immediately before `next`, or at the end when `next` is absent.
/// Meaningful only when `next`, if present, occurs in `kids`.
pub open spec fn insert_children(kids: Seq<usize>, newid: usize, next: Option<usize>) -> Seq<
    usize,
> {
    match next {
        Option::None => kids.push(newid),
        Option::Some(nx) => kids.insert(first_pos(kids, nx), newid),
    }
}

/// No handle occurs twice in `s`.
pub open spec fn no_dup(s: Seq<usize>) -> bool {
    forall|j: int, k: int| 0 <= j < k < s.len() ==> s[j] != s[k]
}

/// The host document: the arena of text/comment nodes, and each element's
/// ordered child list.
pub struct Document {
    nodes: Vec<NodeData>,
    elems: Vec<Vec<usize>>,
}

impl Document {
    /// The arena, as a sequence of node views; a node handle is an index
    /// into it.
    pub closed spec fn nodes(self) -> Seq<NodeModel> {
        self.nodes@.map(|i: int, nd: NodeData| node_model(nd.is_comment, nd.content@))
    }

    /// Each element's ordered child list, as a sequence of node handles.
    pub closed spec fn children(self) -> Seq<Seq<usize>> {
        self.elems@.map(|i: int, kids: Vec<usize>| kids@)
    }

    pub open spec fn node_count(self) -> int {
        self.nodes().len() as int
    }

    pub open spec fn elem_count(self) -> int {
        self.children().len() as int
    }

    pub open spec fn valid_elem(self, e: int) -> bool {
        0 <= e < self.elem_count()
    }

    pub open spec fn valid_node(self, n: int) -> bool {
        0 <= n < self.node_count()
    }

    /// Well-formedness: every handle in a child list points into the arena,
    /// and no element holds the same node twice.
    pub open spec fn wf(self) -> bool {
        &&& forall|e: int, i: int|
            0 <= e < self.elem_count() && 0 <= i < self.children()[e].len()
                ==> (#[trigger] self.children()[e][i] as int) < self.node_count()
        &&& forall|e: int|
            0 <= e < self.elem_count() ==> no_dup(#[trigger] self.children()[e])
    }

    /// Serialized content of the element `e`: its children rendered in order.
    pub open spec fn inner_html_of(self, e: int) -> Seq<char> {
        html_seq(self.nodes(), self.children()[e])
    }

    /// An empty document: no nodes, no elements.
    pub fn new() -> (doc: Document)
        ensures
            doc.node_count() == 0,
            doc.elem_count() == 0,
            doc.wf(),
    {
        let doc = Document { nodes: Vec::new(), elems: Vec::new() };
        proof {
            assert(doc.nodes() =~= Seq::<NodeModel>::empty());
            assert(doc.children() =~= Seq::<Seq<usize>>::empty());
        }
        doc
    }

    /// Create a fresh element with no children and return its handle.
    pub fn create_element(&mut self) -> (e: usize)
        ensures
            final(self).nodes() == old(self).nodes(),
            e as int == old(self).elem_count(),
            final(self).children() == old(self).children().push(Seq::<usize>::empty()),
            old(self).wf() ==> final(self).wf(),
    {
        let e = self.elems.len();
        self.elems.push(Vec::new());
        proof {
            assert(final(self).nodes() =~= old(self).nodes());
            assert(final(self).children() =~= old(self).children().push(Seq::<usize>::empty()));
        }
        e
    }

    /// Create a detached text node holding `content` and return its handle.
    pub fn create_text_node(&mut self, content: String) -> (n: usize)
        ensures
            final(self).children() == old(self).children(),
            n as int == old(self).node_count(),
            final(self).nodes() == old(self).nodes().push(node_model(false, content@)),
            old(self).wf() ==> final(self).wf(),
    {
        let n = self.nodes.len();
        let ghost text = content@;
        self.nodes.push(NodeData { is_comment: false, content });
        proof {
            assert(final(self).children() =~= old(self).children());
            assert(final(self).nodes() =~= old(self).nodes().push(node_model(false, text)));
        }
        n
    }

    /// Create a detached comment node holding `content` and return its handle.
    pub fn create_comment(&mut self, content: String) -> (n: usize)
        ensures
            final(self).children() == old(self).children(),
            n as int == old(self).node_count(),
            final(self).nodes() == old(self).nodes().push(node_model(true, content@)),
            old(self).wf() ==> final(self).wf(),
    {
        let n = self.nodes.len();
        let ghost text = content@;
        self.nodes.push(NodeData { is_comment: true, content });
        proof {
            assert(final(self).children() =~= old(self).children());
            assert(final(self).nodes() =~= old(self).nodes().push(node_model(true, text)));
        }
        n
    }

    /// Append `node` as the last child of `parent`, detaching it from its
    /// old position under `parent` first, as the host document moves a node
    /// rather than duplicating it.  Fails on an invalid handle.
    pub fn append_child(&mut self, parent: usize, node: usize) -> (r: Result<(), PlatformError>)
        ensures
            final(self).nodes() == old(self).nodes(),
            r is Ok <==> old(self).valid_elem(parent as int) && old(self).valid_node(node as int),
            r is Ok ==> final(self).children() == old(self).children().update(
                parent as int,
                detach(old(self).children()[parent as int], node).push(node),
            ),
            r is Err ==> final(self).children() == old(self).children(),
            old(self).wf() ==> final(self).wf(),
    {
        if parent >= self.elems.len() || node >= self.nodes.len() {
            return Err(PlatformError);
        }
        let ghost kids = self.children()[parent as int];
        match find_index(&self.elems[parent], node) {
            Option::Some(i) => {
                proof {
                    kids.index_of_first_ensures(node);
                }
                self.elems[parent].remove(i);
            },
            Option::None => {},
        }
        self.elems[parent].push(node);
        proof {
            assert(final(self).nodes() =~= old(self).nodes());
            assert(final(self).children() =~= old(self).children().update(
                parent as int,
                detach(kids, node).push(node),
            ));
            if old(self).wf() {
                assert forall|e: int, i: int|
                    0 <= e < final(self).elem_count() && 0 <= i < final(self).children()[e].len()
                        implies (#[trigger] final(self).children()[e][i] as int)
                        < final(self).node_count() by {
                    if e == parent as int {
                        let nk = final(self).children()[e];
                        if i < nk.len() - 1 {
                            lemma_detach_keeps_valid(kids, node, i, *old(self));
                        }
                    }
                }
                assert(no_dup(kids));
                lemma_detach_props(kids, node);
                let d = detach(kids, node);
                assert(d.push(node) =~= d.insert(d.len() as int, node));
                lemma_insert_no_dup(d, node, d.len() as int);
                assert forall|e: int|
                    0 <= e < final(self).elem_count() implies no_dup(
                    #[trigger] final(self).children()[e],
                ) by {
                    if e == parent as int {
                        assert(final(self).children()[e] =~= d.insert(d.len() as int, node));
                    }
                }
            }
        }
        Ok(())
    }

    /// Place `node` immediately before the child `next` of `parent`,
    /// detaching `node` from its old position under `parent` first.  Fails
    /// on an invalid handle or when `next` is not a child of `parent`.
    /// Inserting a node before itself leaves the document unchanged.
    pub fn insert_before(&mut self, parent: usize, node: usize, next: usize) -> (r: Result<
        (),
        PlatformError,
    >)
        requires
            old(self).wf(),
        ensures
            final(self).wf(),
            final(self).nodes() == old(self).nodes(),
            r is Ok <==> old(self).valid_elem(parent as int) && old(self).valid_node(node as int)
                && old(self).children()[parent as int].contains(next),
            r is Err ==> final(self).children() == old(self).children(),
            r is Ok && node == next ==> final(self).children() == old(self).children(),
            r is Ok && node != next ==> final(self).children() == old(self).children().update(
                parent as int,
                insert_children(
                    detach(old(self).children()[parent as int], node),
                    node,
                    Some(next),
                ),
            ),
    {
        if parent >= self.elems.len() || node >= self.nodes.len() {
            return Err(PlatformError);
        }
        let ghost kids = self.children()[parent as int];
        match find_index(&self.elems[parent], next) {
            Option::Some(_) => {
                proof {
                    kids.index_of_first_ensures(next);
                }
            },
            Option::None => {
                return Err(PlatformError);
            },
        }
        if node == next {
            return Ok(());
        }
        match find_index(&self.elems[parent], node) {
            Option::Some(i) => {
                proof {
                    kids.index_of_first_ensures(node);
                }
                self.elems[parent].remove(i);
            },
            Option::None => {},
        }
        let ghost kids2 = self.children()[parent as int];
        proof {
            assert(kids2 =~= detach(kids, node));
            let k = first_pos(kids, next);
            kids.index_of_first_ensures(next);
            if kids.contains(node) {
                let p = first_pos(kids, node);
                kids.index_of_first_ensures(node);
                if k < p {
                    assert(kids2[k] == next);
                    assert(kids2.contains(next)) by {
                        assert(0 <= k < kids2.len());
                    }
                } else {
                    assert(kids2[k - 1] == next);
                    assert(kids2.contains(next)) by {
                        assert(0 <= k - 1 < kids2.len());
                    }
                }
            }
            assert(no_dup(kids));
            lemma_detach_props(kids, node);
        }
        match find_index(&self.elems[parent], next) {
            Option::Some(j) => {
                proof {
                    kids2.index_of_first_ensures(next);
                }
                self.elems[parent].insert(j, node);
                proof {
                    assert(final(self).nodes() =~= old(self).nodes());
                    assert(final(self).children() =~= old(self).children().update(
                        parent as int,
                        insert_children(kids2, node, Some(next)),
                    ));
                    assert forall|e: int, i: int|
                        0 <= e < final(self).elem_count()
                            && 0 <= i < final(self).children()[e].len()
                            implies (#[trigger] final(self).children()[e][i] as int)
                            < final(self).node_count() by {
                        if e == parent as int {
                            let nk = final(self).children()[e];
                            if i != j {
                                let src: int = if i < j {
                                    i
                                } else {
                                    i - 1
                                };
                                assert(nk[i] == kids2[src]);
                                lemma_detach_keeps_valid(kids, node, src, *old(self));
                            }
                        }
                    }
                    lemma_insert_no_dup(kids2, node, j as int);
                    assert forall|e: int|
                        0 <= e < final(self).elem_count() implies no_dup(
                        #[trigger] final(self).children()[e],
                    ) by {
                        if e == parent as int {
                            assert(final(self).children()[e] =~= kids2.insert(j as int, node));
                        }
                    }
                }
                Ok(())
            },
            Option::None => {
                // never reached: next differs from node, so it survives the
                // detach above and the scan finds it
                proof {
                    assert(false);
                }
                Err(PlatformError)
            },
        }
    }

    /// Remove the child `node` from `parent`.  Fails when `node` is not a
    /// child of `parent`.  The node itself survives, detached, so its owner
    /// may be discarded or re-insert it.
    pub fn remove_child(&mut self, parent: usize, node: usize) -> (r: Result<(), PlatformError>)
        requires
            old(self).wf(),
        ensures
            final(self).wf(),
            final(self).nodes() == old(self).nodes(),
            r is Ok <==> old(self).valid_elem(parent as int)
                && old(self).children()[parent as int].contains(node),
            r is Ok ==> final(self).children() == old(self).children().update(
                parent as int,
                detach(old(self).children()[parent as int], node),
            ),
            r is Err ==> final(self).children() == old(self).children(),
    {
        if parent >= self.elems.len() {
            return Err(PlatformError);
        }
        let ghost kids = self.children()[parent as int];
        match find_index(&self.elems[parent], node) {
            Option::Some(i) => {
                proof {
                    kids.index_of_first_ensures(node);
                }
                self.elems[parent].remove(i);
                proof {
                    assert(final(self).nodes() =~= old(self).nodes());
                    assert(final(self).children() =~= old(self).children().update(
                        parent as int,
                        detach(kids, node),
                    ));
                    assert forall|e: int, i2: int|
                        0 <= e < final(self).elem_count()
                            && 0 <= i2 < final(self).children()[e].len()
                            implies (#[trigger] final(self).children()[e][i2] as int)
                            < final(self).node_count() by {
                        if e == parent as int {
                            lemma_detach_keeps_valid(kids, node, i2, *old(self));
                        }
                    }
                    assert(no_dup(kids));
                    lemma_detach_props(kids, node);
                    assert forall|e: int|
                        0 <= e < final(self).elem_count() implies no_dup(
                        #[trigger] final(self).children()[e],
                    ) by {}
                }
                Ok(())
            },
            Option::None => Err(PlatformError),
        }
    }

    /// Overwrite the text carried by the node `node`, keeping its kind.  The
    /// host document performs this without failing.
    pub fn set_text_content(&mut self, node: usize, content: String)
        requires
            old(self).valid_node(node as int),
        ensures
            final(self).children() == old(self).children(),
            final(self).nodes() == old(self).nodes().update(
                node as int,
                node_model(old(self).nodes()[node as int].is_comment, content@),
            ),
            old(self).wf() ==> final(self).wf(),
    {
        let ghost text = content@;
        let is_comment = self.nodes[node].is_comment;
        self.nodes[node] = NodeData { is_comment, content };
        proof {
            assert(final(self).children() =~= old(self).children());
            assert(final(self).nodes() =~= old(self).nodes().update(
                node as int,
                node_model(old(self).nodes()[node as int].is_comment, text),
            ));
        }
    }

    /// Serialize the children of `parent`, left to right.
    pub fn inner_html(&self, parent: usize) -> (r: String)
        requires
            self.wf(),
            self.valid_elem(parent as int),
        ensures
            r@ == self.inner_html_of(parent as int),
    {
        let mut s = String::new();
        let kids = &self.elems[parent];
        let n = kids.len();
        let mut i: usize = 0;
        while i < n
            invariant
                self.wf(),
                self.valid_elem(parent as int),
                kids@ == self.children()[parent as int],
                n == kids@.len(),
                i <= n,
                s@ == html_seq(self.nodes(), kids@.take(i as int)),
            decreases n - i,
        {
            let id = kids[i];
            let piece = render_node(&self.nodes[id]);
            s.append(piece.as_str());
            proof {
                assert(kids@.take(i + 1).drop_last() =~= kids@.take(i as int));
                assert(kids@.take(i + 1).last() == kids@[i as int]);
            }
            i += 1;
        }
        proof {
            assert(kids@.take(n as int) =~= kids@);
        }
        s
    }
}

/// Every element `detach(s, x)` keeps was already in `s`, so it stays a
/// valid handle of a well-formed document's child list.
proof fn lemma_detach_keeps_valid(kids: Seq<usize>, x: usize, i: int, doc: Document)
    requires
        0 <= i < detach(kids, x).len(),
        forall|j: int| 0 <= j < kids.len() ==> (#[trigger] kids[j] as int) < doc.node_count(),
    ensures
        (detach(kids, x)[i] as int) < doc.node_count(),
{
    if kids.contains(x) {
        let p = first_pos(kids, x);
        kids.index_of_first_ensures(x);
        if i < p {
            assert(detach(kids, x)[i] == kids[i]);
        } else {
            assert(detach(kids, x)[i] == kids[i + 1]);
        }
    }
}

/// Detaching from a duplicate-free list keeps it duplicate-free and leaves
/// no occurrence of the detached handle behind.
proof fn lemma_detach_props(kids: Seq<usize>, x: usize)
    requires
        no_dup(kids),
    ensures
        no_dup(detach(kids, x)),
        !detach(kids, x).contains(x),
{
    if kids.contains(x) {
        let p = first_pos(kids, x);
        kids.index_of_first_ensures(x);
        let d = detach(kids, x);
        assert forall|j: int, k: int| 0 <= j < k < d.len() implies d[j] != d[k] by {
            let j2: int = if j < p {
                j
            } else {
                j + 1
            };
            let k2: int = if k < p {
                k
            } else {
                k + 1
            };
            assert(d[j] == kids[j2]);
            assert(d[k] == kids[k2]);
        }
        if d.contains(x) {
            let i = choose|i: int| 0 <= i < d.len() && d[i] == x;
            if i < p {
                assert(kids[i] == x);
            } else {
                assert(kids[i + 1] == x);
            }
        }
    }
}

/// Inserting a handle that a duplicate-free list does not hold keeps the
/// list duplicate-free.
proof fn lemma_insert_no_dup(s: Seq<usize>, y: usize, j: int)
    requires
        no_dup(s),
        !s.contains(y),
        0 <= j <= s.len(),
    ensures
        no_dup(s.insert(j, y)),
{
    let t = s.insert(j, y);
    assert forall|a: int, b: int| 0 <= a < b < t.len() implies t[a] != t[b] by {
        if a == j && b != j {
            assert(t[b] == s[b - 1]);
        } else if b == j && a != j {
            assert(t[a] == s[a]);
        } else if a != j && b != j {
            let a2: int = if a < j {
                a
            } else {
                a - 1
            };
            let b2: int = if b < j {
                b
            } else {
                b - 1
            };
            assert(t[a] == s[a2]);
            assert(t[b] == s[b2]);
        }
    }
}

/// Index of the first occurrence of `x` in `v`, scanning left to right.
fn find_index(v: &Vec<usize>, x: usize) -> (r: Option<usize>)
    ensures
        match r {
            Option::Some(i) => v@.index_of_first(x) == Option::Some(i as int),
            Option::None => !v@.contains(x),
        },
{
    let n = v.len();
    let mut i: usize = 0;
    while i < n
        invariant
            n == v@.len(),
            i <= n,
            forall|j: int| 0 <= j < i ==> v@[j] != x,
        decreases n - i,
    {
        if v[i] == x {
            proof {
                assert(v@.contains(x)) by {
                    assert(v@[i as int] == x);
                }
                v@.index_of_first_ensures(x);
                let p = v@.index_of_first(x)->Some_0;
                assert(v@[p] == x);
                assert(p >= i) by {
                    if p < i {
                        assert(v@[p] != x);
                    }
                }
            }
            return Some(i);
        }
        i += 1;
    }
    proof {
        assert(!v@.contains(x)) by {
            if v@.contains(x) {
                let j = choose|j: int| 0 <= j < v@.len() && v@[j] == x;
                assert(v@[j] != x);
            }
        }
    }
    None
}

/// Serialize one arena node, wrapping a comment as `<!--content-->`.
fn render_node(nd: &NodeData) -> (r: String)
    ensures
        r@ == display_of(nd.is_comment, nd.content@),
{
    if nd.is_comment {
        let mut s = String::from_str("<!--");
        s.append(nd.content.as_str());
        s.append("-->");
        s
    } else {
        nd.content.clone()
    }
}

} // verus!
