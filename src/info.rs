//! Metadata of one fankit, read from its detail page.

use vstd::prelude::*;

use crate::id::FankitId;
use crate::node::{
    find_by_class, find_by_id, first_with_class, first_with_id, get_anchors, inner_text,
    links_to, subtree_end, texts, Document, DomNode,
};
use crate::text::{
    collapse_whitespace, decimal, ends_with, push_char, push_decimal, squash_spaces, trim,
    trim_str,
};

verus! {

/// Fankit info.
#[derive(Debug, Clone)]
pub struct FankitInfo {
    /// ID.
    id: FankitId,
    /// Fankit type.
    ty: String,
    /// Title.
    title: String,
    /// Image URLs, each once.
    image_urls: Vec<String>,
}

/// What a `FankitInfo` holds.
pub ghost struct FankitInfoView {
    pub id: FankitId,
    pub ty: Seq<char>,
    pub title: Seq<char>,
    pub image_urls: Seq<Seq<char>>,
}

/// Why a detail page gave no `FankitInfo`.
#[derive(Debug, Clone, Copy, PartialEq, Eq, Structural)]
pub enum FankitInfoError {
    /// No node has the ID `contents`.
    MissingContents,
    /// No node under the contents has the class `fankit-type`.
    MissingType,
    /// No node under the contents has the class `title`.
    MissingTitle,
}

impl View for FankitInfo {
    type V = FankitInfoView;

    closed spec fn view(&self) -> FankitInfoView {
        FankitInfoView {
            id: self.id,
            ty: self.ty@,
            title: self.title@,
            image_urls: self.image_urls@.map_values(|s: String| s@),
        }
    }
}

/// Whether `href` names an image: it ends in `.jpg` or `.png`.
pub open spec fn is_image_href(href: Seq<char>) -> bool {
    ".jpg"@.is_suffix_of(href) || ".png"@.is_suffix_of(href)
}

/// The contents node of the page subtree at `node`: the first node with the
/// ID `contents` (the subtree's end if there is none).
pub open spec fn contents_node(nodes: Seq<DomNode>, node: int) -> int {
    first_with_id(nodes, node, subtree_end(nodes, node), "contents"@)
}

/// First node under the contents node `c` whose classes include `class`.
pub open spec fn class_node(nodes: Seq<DomNode>, c: int, class: Seq<char>) -> int {
    first_with_class(nodes, c, subtree_end(nodes, c), class)
}

/// The text of the subtree at `k`, words joined by single spaces.
pub open spec fn field_text(nodes: Seq<DomNode>, k: int) -> Seq<char> {
    squash_spaces(texts(nodes, k, subtree_end(nodes, k)))
}

/// The error reading the page subtree at `node` gives, if any.
pub open spec fn info_error(nodes: Seq<DomNode>, node: int) -> Option<FankitInfoError> {
    let c = contents_node(nodes, node);
    if c >= subtree_end(nodes, node) {
        Some(FankitInfoError::MissingContents)
    } else if class_node(nodes, c, "fankit-type"@) >= subtree_end(nodes, c) {
        Some(FankitInfoError::MissingType)
    } else if class_node(nodes, c, "title"@) >= subtree_end(nodes, c) {
        Some(FankitInfoError::MissingTitle)
    } else {
        None
    }
}

/// Whether `url` is an image URL of the page whose contents node is `c`:
/// some anchor under it links to an image, and `url` is that link trimmed.
pub open spec fn page_image(nodes: Seq<DomNode>, c: int, url: Seq<char>) -> bool {
    exists|h: Seq<char>|
        #[trigger] links_to(nodes, c, subtree_end(nodes, c), h) && is_image_href(h) && trim(h)
            == url
}

/// Whether some string of `v` holds the characters `u`.
pub open spec fn holds_string(v: Seq<String>, u: Seq<char>) -> bool {
    exists|p: int| 0 <= p < v.len() && #[trigger] v[p]@ == u
}

/// Whether one of the first `n` links of `links` names an image and trims
/// to `u`.
pub open spec fn trimmed_image_among(links: Seq<String>, n: int, u: Seq<char>) -> bool {
    exists|a: int| 0 <= a < n && is_image_href(#[trigger] links[a]@) && trim(links[a]@) == u
}

/// What reading the page subtree at `node` for fankit `id` gives, when
/// `info_error` is `None`.
pub open spec fn info_matches(
    info: FankitInfoView,
    id: FankitId,
    nodes: Seq<DomNode>,
    node: int,
) -> bool {
    let c = contents_node(nodes, node);
    &&& info.id == id
    &&& info.ty == field_text(nodes, class_node(nodes, c, "fankit-type"@))
    &&& info.title == field_text(nodes, class_node(nodes, c, "title"@))
    &&& info.image_urls.no_duplicates()
    &&& forall|u: Seq<char>| #[trigger] info.image_urls.contains(u) <==> page_image(nodes, c, u)
}

/// The name of the item's directory: `<id>-<type>-<title>`.
pub open spec fn item_name_spec(info: FankitInfoView) -> Seq<char> {
    decimal(info.id.0 as nat) + seq!['-'] + info.ty + seq!['-'] + info.title
}

impl FankitInfo {
    /// Returns the item name.
    pub fn item_name(&self) -> (r: String)
        ensures
            r@ == item_name_spec(self@),
    {
        let mut s = String::new();
        push_decimal(&mut s, self.id.0);
        push_char(&mut s, '-');
        s.append(self.ty.as_str());
        push_char(&mut s, '-');
        s.append(self.title.as_str());
        s
    }

    /// Returns the image URLs, each once.
    pub fn image_urls(&self) -> (r: Vec<String>)
        ensures
            r@.map_values(|s: String| s@) == self@.image_urls,
    {
        let mut out: Vec<String> = Vec::new();
        let mut i: usize = 0;
        while i < self.image_urls.len()
            invariant
                i <= self.image_urls@.len(),
                out@ == self.image_urls@.subrange(0, i as int),
            decreases self.image_urls@.len() - i,
        {
            out.push(self.image_urls[i].clone());
            assert(out@ =~= self.image_urls@.subrange(0, i + 1));
            i += 1;
        }
        assert(self.image_urls@.subrange(0, i as int) =~= self.image_urls@);
        out
    }

    /// Returns the ID.
    pub fn id(&self) -> (r: FankitId)
        ensures
            r == self@.id,
    {
        self.id
    }

    /// Returns the fankit type.
    pub fn ty(&self) -> (r: &str)
        ensures
            r@ == self@.ty,
    {
        self.ty.as_str()
    }

    /// Returns the title.
    pub fn title(&self) -> (r: &str)
        ensures
            r@ == self@.title,
    {
        self.title.as_str()
    }

    /// Reads the fankit metadata from the page subtree rooted at `node`.
    pub fn from_node(id: FankitId, doc: &Document, node: usize) -> (r: Result<
        Self,
        FankitInfoError,
    >)
        requires
            node < doc.nodes@.len(),
        ensures
            match r {
                Ok(info) => info_error(doc.nodes@, node as int) is None && info_matches(
                    info@,
                    id,
                    doc.nodes@,
                    node as int,
                ),
                Err(e) => info_error(doc.nodes@, node as int) == Some(e),
            },
    {
        let ghost nodes = doc.nodes@;
        let contents = match find_by_id(doc, node, "contents") {
            Some(c) => c,
            None => return Err(FankitInfoError::MissingContents),
        };
        proof {
            crate::node::lemma_subtree_end_bounds(nodes, node as int);
            crate::node::lemma_subtree_end_bounds(nodes, contents as int);
        }
        let type_node = match find_by_class(doc, contents, "fankit-type") {
            Some(k) => k,
            None => return Err(FankitInfoError::MissingType),
        };
        let title_node = match find_by_class(doc, contents, "title") {
            Some(k) => k,
            None => return Err(FankitInfoError::MissingTitle),
        };
        let ty_text = inner_text(doc, type_node);
        let ty = collapse_whitespace(ty_text.as_str());
        let title_text = inner_text(doc, title_node);
        let title = collapse_whitespace(title_text.as_str());

        let anchors = get_anchors(doc, contents);
        let ghost end = subtree_end(nodes, contents as int);
        let mut image_urls: Vec<String> = Vec::new();
        let mut i: usize = 0;
        while i < anchors.len()
            invariant
                i <= anchors@.len(),
                nodes == doc.nodes@,
                end == subtree_end(nodes, contents as int),
                forall|a: int|
                    0 <= a < anchors@.len() ==> links_to(
                        nodes,
                        contents as int,
                        end,
                        #[trigger] anchors@[a]@,
                    ),
                forall|h: Seq<char>|
                    #[trigger] links_to(nodes, contents as int, end, h) ==> exists|a: int|
                        0 <= a < anchors@.len() && #[trigger] anchors@[a]@ == h,
                forall|p: int, q: int|
                    0 <= p < q < image_urls@.len() ==> image_urls@[p]@ != image_urls@[q]@,
                forall|u: Seq<char>|
                    #[trigger] holds_string(image_urls@, u) <==> trimmed_image_among(
                        anchors@,
                        i as int,
                        u,
                    ),
            decreases anchors@.len() - i,
        {
            let a = anchors[i].as_str();
            let ghost before = image_urls@;
            if ends_with(a, ".jpg") || ends_with(a, ".png") {
                let t = String::from_str(trim_str(a));
                if !crate::node::contains_string(&image_urls, &t) {
                    image_urls.push(t);
                    assert(image_urls@[before.len() as int]@ == trim(anchors@[i as int]@));
                    assert forall|u: Seq<char>|
                        #[trigger] holds_string(image_urls@, u) <==> trimmed_image_among(
                            anchors@,
                            i + 1,
                            u,
                        ) by {
                        if holds_string(image_urls@, u) {
                            let p = choose|p: int|
                                0 <= p < image_urls@.len() && #[trigger] image_urls@[p]@ == u;
                            if p < before.len() {
                                assert(before[p]@ == u);
                                assert(holds_string(before, u));
                                let b = choose|b: int|
                                    0 <= b < i && is_image_href(#[trigger] anchors@[b]@) && trim(
                                        anchors@[b]@,
                                    ) == u;
                                assert(0 <= b < i + 1);
                            } else {
                                assert(is_image_href(anchors@[i as int]@));
                            }
                        }
                        if trimmed_image_among(anchors@, i + 1, u) {
                            let b = choose|b: int|
                                0 <= b < i + 1 && is_image_href(#[trigger] anchors@[b]@) && trim(
                                    anchors@[b]@,
                                ) == u;
                            if b < i {
                                assert(trimmed_image_among(anchors@, i as int, u));
                                assert(holds_string(before, u));
                                let p = choose|p: int|
                                    0 <= p < before.len() && #[trigger] before[p]@ == u;
                                assert(image_urls@[p]@ == u);
                            } else {
                                assert(image_urls@[before.len() as int]@ == u);
                            }
                        }
                    }
                } else {
                    assert forall|u: Seq<char>|
                        #[trigger] holds_string(image_urls@, u) <==> trimmed_image_among(
                            anchors@,
                            i + 1,
                            u,
                        ) by {
                        if holds_string(image_urls@, u) {
                            let b = choose|b: int|
                                0 <= b < i && is_image_href(#[trigger] anchors@[b]@) && trim(
                                    anchors@[b]@,
                                ) == u;
                            assert(0 <= b < i + 1);
                        }
                        if trimmed_image_among(anchors@, i + 1, u) {
                            let b = choose|b: int|
                                0 <= b < i + 1 && is_image_href(#[trigger] anchors@[b]@) && trim(
                                    anchors@[b]@,
                                ) == u;
                            if b < i {
                                assert(trimmed_image_among(anchors@, i as int, u));
                            } else {
                                assert(holds_string(before, t@));
                            }
                        }
                    }
                }
            } else {
                assert forall|u: Seq<char>|
                    #[trigger] holds_string(image_urls@, u) <==> trimmed_image_among(
                        anchors@,
                        i + 1,
                        u,
                    ) by {
                    if holds_string(image_urls@, u) {
                        let b = choose|b: int|
                            0 <= b < i && is_image_href(#[trigger] anchors@[b]@) && trim(
                                anchors@[b]@,
                            ) == u;
                        assert(0 <= b < i + 1);
                    }
                    if trimmed_image_among(anchors@, i + 1, u) {
                        let b = choose|b: int|
                            0 <= b < i + 1 && is_image_href(#[trigger] anchors@[b]@) && trim(
                                anchors@[b]@,
                            ) == u;
                        assert(b < i);
                        assert(trimmed_image_among(anchors@, i as int, u));
                    }
                }
            }
            i += 1;
        }
        let info = FankitInfo { id, ty, title, image_urls };
        proof {
            let v = info@.image_urls;
            assert forall|p: int, q: int| 0 <= p < v.len() && 0 <= q < v.len() && p != q implies v[p]
                != v[q] by {
                if p < q {
                    assert(image_urls@[p]@ != image_urls@[q]@);
                } else {
                    assert(image_urls@[q]@ != image_urls@[p]@);
                }
            }
            assert forall|u: Seq<char>| #[trigger] v.contains(u) <==> page_image(
                nodes,
                contents as int,
                u,
            ) by {
                if v.contains(u) {
                    let p = choose|p: int| 0 <= p < v.len() && v[p] == u;
                    assert(image_urls@[p]@ == u);
                    assert(holds_string(image_urls@, u));
                    assert(trimmed_image_among(anchors@, i as int, u));
                    let a = choose|a: int|
                        0 <= a < i && is_image_href(#[trigger] anchors@[a]@) && trim(anchors@[a]@)
                            == u;
                    assert(links_to(nodes, contents as int, end, anchors@[a]@));
                }
                if page_image(nodes, contents as int, u) {
                    let h = choose|h: Seq<char>|
                        #[trigger] links_to(nodes, contents as int, end, h) && is_image_href(h)
                            && trim(h) == u;
                    let a = choose|a: int| 0 <= a < anchors@.len() && #[trigger] anchors@[a]@ == h;
                    assert(is_image_href(anchors@[a]@) && trim(anchors@[a]@) == u);
                    assert(trimmed_image_among(anchors@, i as int, u));
                    assert(holds_string(image_urls@, u));
                    let p = choose|p: int| 0 <= p < image_urls@.len() && #[trigger] image_urls@[p]@ == u;
                    assert(v[p] == u);
                }
            }
        }
        Ok(info)
    }
}

impl FankitId {
    /// Reads the metadata of this fankit from its parsed detail page, that
    /// is from the subtree of node 0; on a well-formed document
    /// (`Document::wf`) that subtree is the whole page
    /// (`lemma_root_spans_document`).
    pub fn load(self, doc: &Document) -> (r: Result<FankitInfo, FankitInfoError>)
        ensures
            doc.nodes@.len() == 0 ==> r == Err::<FankitInfo, FankitInfoError>(
                FankitInfoError::MissingContents,
            ),
            doc.nodes@.len() > 0 ==> match r {
                Ok(info) => info_error(doc.nodes@, 0) is None && info_matches(
                    info@,
                    self,
                    doc.nodes@,
                    0,
                ),
                Err(e) => info_error(doc.nodes@, 0) == Some(e),
            },
    {
        if doc.nodes.len() == 0 {
            return Err(FankitInfoError::MissingContents);
        }
        FankitInfo::from_node(self, doc, 0)
    }
}

impl FankitInfoError {
    /// Describes the error.
    pub fn message(&self) -> (r: &'static str)
        ensures
            *self is MissingContents ==> r@ == "Failed to get contents element"@,
            *self is MissingType ==> r@ == "Failed to get fankit type"@,
            *self is MissingTitle ==> r@ == "Failed to get fankit title"@,
    {
        match self {
            FankitInfoError::MissingContents => "Failed to get contents element",
            FankitInfoError::MissingType => "Failed to get fankit type",
            FankitInfoError::MissingTitle => "Failed to get fankit title",
        }
    }
}

} // verus!
