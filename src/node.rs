//! A parsed HTML document as a flat pre-order sequence of nodes, and the
//! queries the extraction logic makes of it.
//!
//! Each node carries its depth in the tree. The subtree of node `i` is the
//! run of nodes that starts at `i` and continues while the depth stays
//! greater than that of `i`, so a depth-first pre-order walk of a subtree is
//! a walk over consecutive indices.

use vstd::prelude::*;

use crate::text::{is_ascii_space, is_ascii_space_spec, str_eq};

verus! {

/// One attribute of an element.
#[derive(Debug, Clone)]
pub struct Attribute {
    /// Local name of the attribute.
    pub name: String,
    /// Value of the attribute.
    pub value: String,
}

/// What a node holds.
#[derive(Debug, Clone)]
pub enum NodeData {
    /// An element, with its local name and its attributes in source order.
    Element { name: String, attrs: Vec<Attribute> },
    /// A text node.
    Text { contents: String },
    /// Any other node (the document itself, comments, doctypes, ...).
    Other,
}

/// One node of a document, with its depth (the root has depth 0).
#[derive(Debug, Clone)]
pub struct DomNode {
    /// Number of ancestors of the node.
    pub depth: usize,
    /// What the node holds.
    pub data: NodeData,
}

/// A document: its nodes in depth-first pre-order.
#[derive(Debug, Clone)]
pub struct Document {
    /// The nodes, root first.
    pub nodes: Vec<DomNode>,
}

impl Document {
    /// Node 0 is the single root: it has depth 0 and every later node is
    /// deeper. A parsed HTML page has this shape, with the document node as
    /// the root.
    pub open spec fn wf(&self) -> bool {
        self.nodes@.len() > 0 ==> {
            &&& self.nodes@[0].depth == 0
            &&& forall|k: int| 1 <= k < self.nodes@.len() ==> #[trigger] self.nodes@[k].depth > 0
        }
    }
}

/// First index from `j` on whose node is not deeper than `depth`, or the
/// length of `nodes` if there is none.
pub open spec fn scan_end(nodes: Seq<DomNode>, depth: usize, j: int) -> int
    decreases nodes.len() - j,
{
    if 0 <= j < nodes.len() && nodes[j].depth > depth {
        scan_end(nodes, depth, j + 1)
    } else {
        j
    }
}

/// One past the last index of the subtree rooted at node `i`.
pub open spec fn subtree_end(nodes: Seq<DomNode>, i: int) -> int {
    scan_end(nodes, nodes[i].depth, i + 1)
}

/// Whether some attribute is named `name` and has the value `value`.
pub open spec fn attrs_have(attrs: Seq<Attribute>, name: Seq<char>, value: Seq<char>) -> bool {
    exists|k: int| 0 <= k < attrs.len() && #[trigger] attrs[k].name@ == name && attrs[k].value@ == value
}

/// Whether `node` is an element with an `id` attribute equal to `id`.
pub open spec fn node_has_id_spec(id: Seq<char>, node: DomNode) -> bool {
    match node.data {
        NodeData::Element { attrs, .. } => attrs_have(attrs@, "id"@, id),
        _ => false,
    }
}

/// Tokens of `v` split at ASCII whitespace, over its first `n` characters:
/// the completed tokens and the token being read.
pub open spec fn token_scan(v: Seq<char>, n: int) -> (Seq<Seq<char>>, Seq<char>)
    decreases n,
{
    if n <= 0 {
        (Seq::empty(), Seq::empty())
    } else {
        let (done, cur) = token_scan(v, n - 1);
        let c = v[n - 1];
        if is_ascii_space_spec(c) {
            if cur.len() > 0 {
                (done.push(cur), Seq::empty())
            } else {
                (done, Seq::empty())
            }
        } else {
            (done, cur.push(c))
        }
    }
}

/// The non-empty runs of non-ASCII-whitespace characters of `v`, in order.
pub open spec fn ascii_tokens(v: Seq<char>) -> Seq<Seq<char>> {
    let (done, cur) = token_scan(v, v.len() as int);
    if cur.len() > 0 {
        done.push(cur)
    } else {
        done
    }
}

/// Whether some `class` attribute lists `class` among its tokens.
pub open spec fn attrs_have_class(attrs: Seq<Attribute>, class: Seq<char>) -> bool {
    exists|k: int|
        0 <= k < attrs.len() && #[trigger] attrs[k].name@ == "class"@ && ascii_tokens(
            attrs[k].value@,
        ).contains(class)
}

/// Whether `node` is an element whose classes include `class`.
pub open spec fn node_has_class_spec(class: Seq<char>, node: DomNode) -> bool {
    match node.data {
        NodeData::Element { attrs, .. } => attrs_have_class(attrs@, class),
        _ => false,
    }
}

/// Text held by `node` itself.
pub open spec fn own_text(node: DomNode) -> Seq<char> {
    match node.data {
        NodeData::Text { contents } => contents@,
        _ => Seq::empty(),
    }
}

/// Concatenated text of the nodes `from..to`.
pub open spec fn texts(nodes: Seq<DomNode>, from: int, to: int) -> Seq<char>
    decreases to - from,
{
    if to <= from {
        Seq::empty()
    } else {
        texts(nodes, from, to - 1) + own_text(nodes[to - 1])
    }
}

/// Value of the first attribute named `href` among `attrs[k..]`.
pub open spec fn first_href(attrs: Seq<Attribute>, k: int) -> Option<Seq<char>>
    decreases attrs.len() - k,
{
    if k < 0 || k >= attrs.len() {
        None
    } else if attrs[k].name@ == "href"@ {
        Some(attrs[k].value@)
    } else {
        first_href(attrs, k + 1)
    }
}

/// The link target of `node`: the first `href` of an `a` element.
pub open spec fn anchor_href(node: DomNode) -> Option<Seq<char>> {
    match node.data {
        NodeData::Element { name, attrs } => if name@ == "a"@ {
            first_href(attrs@, 0)
        } else {
            None
        },
        _ => None,
    }
}

/// Whether some node among `from..to` links to `href`.
pub open spec fn links_to(nodes: Seq<DomNode>, from: int, to: int, href: Seq<char>) -> bool {
    exists|k: int| from <= k < to && #[trigger] anchor_href(nodes[k]) == Some(href)
}

/// Index of the first node among `from..to` with the `id` attribute `id`,
/// or `to` if there is none.
pub open spec fn first_with_id(nodes: Seq<DomNode>, from: int, to: int, id: Seq<char>) -> int
    decreases to - from,
{
    if from >= to {
        to
    } else if node_has_id_spec(id, nodes[from]) {
        from
    } else {
        first_with_id(nodes, from + 1, to, id)
    }
}

/// Index of the first node among `from..to` whose classes include `class`,
/// or `to` if there is none.
pub open spec fn first_with_class(nodes: Seq<DomNode>, from: int, to: int, class: Seq<char>) -> int
    decreases to - from,
{
    if from >= to {
        to
    } else if node_has_class_spec(class, nodes[from]) {
        from
    } else {
        first_with_class(nodes, from + 1, to, class)
    }
}

/// Depth-first traversal of one subtree, yielding node indices in
/// pre-order.
pub struct Traverse {
    /// Next index to yield.
    next: usize,
    /// One past the last index of the subtree.
    end: usize,
}

impl View for Traverse {
    /// The next index to yield and the end of the subtree.
    type V = (int, int);

    closed spec fn view(&self) -> (int, int) {
        (self.next as int, self.end as int)
    }
}

impl Traverse {
    /// Starts a traversal of the subtree rooted at `node`.
    pub fn new(doc: &Document, node: usize) -> (r: Self)
        requires
            node < doc.nodes@.len(),
        ensures
            r@ == (node as int, subtree_end(doc.nodes@, node as int)),
    {
        let depth = doc.nodes[node].depth;
        let n = doc.nodes.len();
        let mut j = node + 1;
        while j < n && doc.nodes[j].depth > depth
            invariant
                node < j <= n,
                n == doc.nodes@.len(),
                depth == doc.nodes@[node as int].depth,
                scan_end(doc.nodes@, depth, j as int) == subtree_end(doc.nodes@, node as int),
            decreases n - j,
        {
            j += 1;
        }
        Traverse { next: node, end: j }
    }

    /// Yields the next node of the traversal.
    pub fn next(&mut self) -> (r: Option<usize>)
        ensures
            old(self)@.0 < old(self)@.1 ==> r == Some(old(self)@.0 as usize) && final(self)@ == (
                old(self)@.0 + 1,
                old(self)@.1,
            ),
            old(self)@.0 >= old(self)@.1 ==> r is None && final(self)@ == old(self)@,
    {
        if self.next < self.end {
            let r = self.next;
            self.next = self.next + 1;
            Some(r)
        } else {
            None
        }
    }
}

/// Whether some attribute is named `id` with the value `id`.
pub fn attrs_has_id(id: &str, attrs: &Vec<Attribute>) -> (r: bool)
    ensures
        r == attrs_have(attrs@, "id"@, id@),
{
    let mut k: usize = 0;
    while k < attrs.len()
        invariant
            k <= attrs@.len(),
            forall|m: int| 0 <= m < k ==> !(#[trigger] attrs@[m].name@ == "id"@ && attrs@[m].value@ == id@),
        decreases attrs@.len() - k,
    {
        if str_eq(attrs[k].name.as_str(), "id") && str_eq(attrs[k].value.as_str(), id) {
            return true;
        }
        k += 1;
    }
    false
}

/// Whether `node` is an element with the `id` attribute `id`.
pub fn node_has_id(id: &str, node: &DomNode) -> (r: bool)
    ensures
        r == node_has_id_spec(id@, *node),
{
    match &node.data {
        NodeData::Element { attrs, .. } => attrs_has_id(id, attrs),
        _ => false,
    }
}

/// Whether `class` is one of the ASCII-whitespace-separated tokens of `v`.
pub fn has_ascii_token(v: &str, class: &str) -> (r: bool)
    ensures
        r == ascii_tokens(v@).contains(class@),
{
    let n = v.unicode_len();
    let mut found = false;
    let mut start: usize = 0;
    let mut i: usize = 0;
    while i < n
        invariant
            n == v@.len(),
            start <= i <= n,
            token_scan(v@, i as int).1 == v@.subrange(start as int, i as int),
            found == token_scan(v@, i as int).0.contains(class@),
        decreases n - i,
    {
        let c = v.get_char(i);
        let ghost prev = token_scan(v@, i as int);
        assert(token_scan(v@, i + 1) == {
            let c = v@[i as int];
            if is_ascii_space_spec(c) {
                if prev.1.len() > 0 {
                    (prev.0.push(prev.1), Seq::<char>::empty())
                } else {
                    (prev.0, Seq::<char>::empty())
                }
            } else {
                (prev.0, prev.1.push(c))
            }
        });
        if is_ascii_space(c) {
            if start < i {
                let tok = v.substring_char(start, i);
                let same = str_eq(tok, class);
                proof {
                    assert(prev.0.push(prev.1).contains(class@) == (prev.0.contains(class@)
                        || prev.1 == class@)) by {
                        let d = prev.0.push(prev.1);
                        if prev.1 == class@ {
                            assert(d[d.len() - 1] == class@);
                        }
                        if prev.0.contains(class@) {
                            let w = choose|w: int| 0 <= w < prev.0.len() && prev.0[w] == class@;
                            assert(d[w] == class@);
                        }
                        if d.contains(class@) {
                            let w = choose|w: int| 0 <= w < d.len() && d[w] == class@;
                            if w < prev.0.len() {
                                assert(prev.0[w] == class@);
                            }
                        }
                    }
                }
                found = found || same;
            }
            start = i + 1;
        } else {
            assert(v@.subrange(start as int, i + 1) =~= v@.subrange(start as int, i as int).push(
                c,
            ));
        }
        i += 1;
    }
    let ghost fin = token_scan(v@, n as int);
    if start < n {
        let tok = v.substring_char(start, n);
        let same = str_eq(tok, class);
        proof {
            let d = fin.0.push(fin.1);
            if fin.1 == class@ {
                assert(d[d.len() - 1] == class@);
            }
            if fin.0.contains(class@) {
                let w = choose|w: int| 0 <= w < fin.0.len() && fin.0[w] == class@;
                assert(d[w] == class@);
            }
            if d.contains(class@) {
                let w = choose|w: int| 0 <= w < d.len() && d[w] == class@;
                if w < fin.0.len() {
                    assert(fin.0[w] == class@);
                }
            }
        }
        found = found || same;
    }
    found
}

/// Whether some `class` attribute lists `class`.
pub fn attrs_has_class(class: &str, attrs: &Vec<Attribute>) -> (r: bool)
    ensures
        r == attrs_have_class(attrs@, class@),
{
    let mut k: usize = 0;
    while k < attrs.len()
        invariant
            k <= attrs@.len(),
            forall|m: int|
                0 <= m < k ==> !(#[trigger] attrs@[m].name@ == "class"@ && ascii_tokens(
                    attrs@[m].value@,
                ).contains(class@)),
        decreases attrs@.len() - k,
    {
        if str_eq(attrs[k].name.as_str(), "class") && has_ascii_token(
            attrs[k].value.as_str(),
            class,
        ) {
            return true;
        }
        k += 1;
    }
    false
}

/// Whether `node` is an element whose classes include `class`.
pub fn node_has_class(class: &str, node: &DomNode) -> (r: bool)
    ensures
        r == node_has_class_spec(class@, *node),
{
    match &node.data {
        NodeData::Element { attrs, .. } => attrs_has_class(class, attrs),
        _ => false,
    }
}

/// First node of the subtree rooted at `node` (in pre-order) that has the
/// `id` attribute `id`.
pub fn find_by_id(doc: &Document, node: usize, id: &str) -> (r: Option<usize>)
    requires
        node < doc.nodes@.len(),
    ensures
        ({
            let end = subtree_end(doc.nodes@, node as int);
            let first = first_with_id(doc.nodes@, node as int, end, id@);
            match r {
                Some(k) => k == first && first < end,
                None => first == end,
            }
        }),
{
    let mut t = Traverse::new(doc, node);
    let ghost end = t@.1;
    proof {
        lemma_subtree_end_bounds(doc.nodes@, node as int);
    }
    loop
        invariant
            t@.1 == end,
            end == subtree_end(doc.nodes@, node as int),
            node <= t@.0 <= end <= doc.nodes@.len(),
            first_with_id(doc.nodes@, node as int, end, id@) == first_with_id(
                doc.nodes@,
                t@.0,
                end,
                id@,
            ),
        decreases end - t@.0,
    {
        match t.next() {
            Some(k) => {
                if node_has_id(id, &doc.nodes[k]) {
                    return Some(k);
                }
            },
            None => {
                return None;
            },
        }
    }
}

/// First node of the subtree rooted at `node` (in pre-order) whose classes
/// include `class`.
pub fn find_by_class(doc: &Document, node: usize, class: &str) -> (r: Option<usize>)
    requires
        node < doc.nodes@.len(),
    ensures
        ({
            let end = subtree_end(doc.nodes@, node as int);
            let first = first_with_class(doc.nodes@, node as int, end, class@);
            match r {
                Some(k) => k == first && first < end,
                None => first == end,
            }
        }),
{
    let mut t = Traverse::new(doc, node);
    let ghost end = t@.1;
    proof {
        lemma_subtree_end_bounds(doc.nodes@, node as int);
    }
    loop
        invariant
            t@.1 == end,
            end == subtree_end(doc.nodes@, node as int),
            node <= t@.0 <= end <= doc.nodes@.len(),
            first_with_class(doc.nodes@, node as int, end, class@) == first_with_class(
                doc.nodes@,
                t@.0,
                end,
                class@,
            ),
        decreases end - t@.0,
    {
        match t.next() {
            Some(k) => {
                if node_has_class(class, &doc.nodes[k]) {
                    return Some(k);
                }
            },
            None => {
                return None;
            },
        }
    }
}

/// The subtree of a node starts after it and ends within the document.
pub proof fn lemma_subtree_end_bounds(nodes: Seq<DomNode>, i: int)
    requires
        0 <= i < nodes.len(),
    ensures
        i < subtree_end(nodes, i) <= nodes.len(),
{
    lemma_scan_end_bounds(nodes, nodes[i].depth, i + 1);
}

proof fn lemma_scan_end_bounds(nodes: Seq<DomNode>, depth: usize, j: int)
    requires
        0 <= j <= nodes.len(),
    ensures
        j <= scan_end(nodes, depth, j) <= nodes.len(),
    decreases nodes.len() - j,
{
    if j < nodes.len() && nodes[j].depth > depth {
        lemma_scan_end_bounds(nodes, depth, j + 1);
    }
}

/// Concatenation of all text nodes in the subtree rooted at `node`, in
/// document order.
pub fn inner_text(doc: &Document, node: usize) -> (r: String)
    requires
        node < doc.nodes@.len(),
    ensures
        r@ == texts(doc.nodes@, node as int, subtree_end(doc.nodes@, node as int)),
{
    let mut buf = String::new();
    let mut t = Traverse::new(doc, node);
    let ghost end = t@.1;
    proof {
        lemma_subtree_end_bounds(doc.nodes@, node as int);
    }
    loop
        invariant
            t@.1 == end,
            end == subtree_end(doc.nodes@, node as int),
            node <= t@.0 <= end <= doc.nodes@.len(),
            buf@ == texts(doc.nodes@, node as int, t@.0),
        decreases end - t@.0,
    {
        match t.next() {
            Some(k) => {
                if let NodeData::Text { contents } = &doc.nodes[k].data {
                    buf.append(contents.as_str());
                } else {
                    assert(own_text(doc.nodes@[k as int]) =~= Seq::<char>::empty());
                }
            },
            None => {
                return buf;
            },
        }
    }
}

/// Value of the first `href` attribute among `attrs`.
pub fn find_href(attrs: &Vec<Attribute>) -> (r: Option<&String>)
    ensures
        r is Some <==> first_href(attrs@, 0) is Some,
        r is Some ==> r->0@ == first_href(attrs@, 0)->0,
{
    let mut k: usize = 0;
    while k < attrs.len()
        invariant
            k <= attrs@.len(),
            first_href(attrs@, 0) == first_href(attrs@, k as int),
        decreases attrs@.len() - k,
    {
        if str_eq(attrs[k].name.as_str(), "href") {
            return Some(&attrs[k].value);
        }
        k += 1;
    }
    None
}

/// The link target of `node`, if it is an anchor with an `href`.
pub fn node_href(node: &DomNode) -> (r: Option<&String>)
    ensures
        r is Some <==> anchor_href(*node) is Some,
        r is Some ==> r->0@ == anchor_href(*node)->0,
{
    match &node.data {
        NodeData::Element { name, attrs } => {
            if str_eq(name.as_str(), "a") {
                find_href(attrs)
            } else {
                None
            }
        },
        _ => None,
    }
}

/// Whether some string of `v` holds the characters `s`.
pub fn contains_string(v: &Vec<String>, s: &String) -> (r: bool)
    ensures
        r == exists|i: int| 0 <= i < v@.len() && #[trigger] v@[i]@ == s@,
{
    let mut i: usize = 0;
    while i < v.len()
        invariant
            i <= v@.len(),
            forall|m: int| 0 <= m < i ==> #[trigger] v@[m]@ != s@,
        decreases v@.len() - i,
    {
        if v[i] == *s {
            return true;
        }
        i += 1;
    }
    false
}

/// Link targets of the anchors in the subtree rooted at `node`, each once,
/// in the order of their first occurrence.
pub fn get_anchors(doc: &Document, node: usize) -> (r: Vec<String>)
    requires
        node < doc.nodes@.len(),
    ensures
        forall|i: int, j: int| 0 <= i < j < r@.len() ==> r@[i]@ != r@[j]@,
        forall|i: int|
            0 <= i < r@.len() ==> links_to(
                doc.nodes@,
                node as int,
                subtree_end(doc.nodes@, node as int),
                #[trigger] r@[i]@,
            ),
        forall|h: Seq<char>|
            links_to(doc.nodes@, node as int, subtree_end(doc.nodes@, node as int), h) ==> exists|
                i: int,
            |
                0 <= i < r@.len() && #[trigger] r@[i]@ == h,
{
    let mut out: Vec<String> = Vec::new();
    let mut t = Traverse::new(doc, node);
    let ghost end = t@.1;
    let ghost nodes = doc.nodes@;
    proof {
        lemma_subtree_end_bounds(doc.nodes@, node as int);
    }
    loop
        invariant
            t@.1 == end,
            nodes == doc.nodes@,
            end == subtree_end(nodes, node as int),
            node <= t@.0 <= end <= nodes.len(),
            forall|i: int, j: int| 0 <= i < j < out@.len() ==> out@[i]@ != out@[j]@,
            forall|i: int|
                0 <= i < out@.len() ==> links_to(nodes, node as int, t@.0, #[trigger] out@[i]@),
            forall|h: Seq<char>|
                links_to(nodes, node as int, t@.0, h) ==> exists|i: int|
                    0 <= i < out@.len() && #[trigger] out@[i]@ == h,
        decreases end - t@.0,
    {
        let ghost pos = t@.0;
        match t.next() {
            Some(k) => {
                let href = node_href(&doc.nodes[k]);
                let ghost old_out = out@;
                match href {
                    Some(h) => {
                        if !contains_string(&out, h) {
                            out.push(h.clone());
                            assert(out@[old_out.len() as int]@ == h@);
                        }
                    },
                    None => {},
                }
                assert forall|i: int| 0 <= i < out@.len() implies links_to(
                    nodes,
                    node as int,
                    pos + 1,
                    #[trigger] out@[i]@,
                ) by {
                    if i < old_out.len() {
                        assert(out@[i] == old_out[i]);
                        assert(links_to(nodes, node as int, pos, old_out[i]@));
                        let w = choose|w: int|
                            node <= w < pos && #[trigger] anchor_href(nodes[w]) == Some(
                                old_out[i]@,
                            );
                        assert(anchor_href(nodes[w]) == Some(out@[i]@));
                    } else {
                        assert(anchor_href(nodes[pos]) == Some(out@[i]@));
                    }
                }
                assert forall|h: Seq<char>| #[trigger] links_to(nodes, node as int, pos + 1, h) implies exists|
                    i: int,
                |
                    0 <= i < out@.len() && #[trigger] out@[i]@ == h by {
                    let w = choose|w: int|
                        node <= w < pos + 1 && #[trigger] anchor_href(nodes[w]) == Some(h);
                    if w < pos {
                        assert(links_to(nodes, node as int, pos, h));
                        let i = choose|i: int| 0 <= i < old_out.len() && #[trigger] old_out[i]@ == h;
                        assert(out@[i] == old_out[i]);
                    }
                }
            },
            None => {
                return out;
            },
        }
    }
}

/// In a well-formed document the subtree of the root is the whole
/// document, so what is read from node 0 is read from the whole page.
pub proof fn lemma_root_spans_document(doc: &Document)
    requires
        doc.wf(),
        doc.nodes@.len() > 0,
    ensures
        subtree_end(doc.nodes@, 0) == doc.nodes@.len(),
{
    lemma_scan_to_end(doc, 1);
}

proof fn lemma_scan_to_end(doc: &Document, j: int)
    requires
        doc.wf(),
        1 <= j <= doc.nodes@.len(),
    ensures
        scan_end(doc.nodes@, 0, j) == doc.nodes@.len(),
    decreases doc.nodes@.len() - j,
{
    if j < doc.nodes@.len() {
        assert(doc.nodes@[j].depth > 0);
        lemma_scan_to_end(doc, j + 1);
    }
}

} // verus!
