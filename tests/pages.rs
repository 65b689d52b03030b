use priconne_fankit_dl::info::{FankitInfo, FankitInfoError};
use priconne_fankit_dl::node::{
    attrs_has_class, get_anchors, inner_text, node_has_class, node_has_id, Attribute, Document,
    DomNode, NodeData, Traverse,
};
use priconne_fankit_dl::{FankitId, FankitListPageIndex};

fn attr(name: &str, value: &str) -> Attribute {
    Attribute {
        name: name.to_string(),
        value: value.to_string(),
    }
}

fn element(depth: usize, name: &str, attrs: Vec<Attribute>) -> DomNode {
    DomNode {
        depth,
        data: NodeData::Element {
            name: name.to_string(),
            attrs,
        },
    }
}

fn text(depth: usize, contents: &str) -> DomNode {
    DomNode {
        depth,
        data: NodeData::Text {
            contents: contents.to_string(),
        },
    }
}

fn root() -> DomNode {
    DomNode {
        depth: 0,
        data: NodeData::Other,
    }
}

fn anchor(depth: usize, href: &str) -> DomNode {
    element(depth, "a", vec![attr("href", href)])
}

/// A detail page: a header link outside the contents, then the contents
/// with a type, a title and four links.
fn detail_page() -> Document {
    Document {
        nodes: vec![
            root(),
            element(1, "body", vec![]),
            anchor(2, "https://example.com/outside.jpg"),
            element(2, "div", vec![attr("id", "contents")]),
            element(3, "p", vec![attr("class", "label fankit-type")]),
            text(4, "  Wallpaper \n "),
            element(3, "h2", vec![attr("class", "title")]),
            text(4, "Summer 2021"),
            anchor(3, "https://example.com/img/a.jpg"),
            anchor(3, " https://example.com/img/b.png"),
            anchor(3, "https://example.com/img/c.gif"),
            anchor(3, "https://example.com/img/a.jpg"),
            element(1, "footer", vec![]),
        ],
    }
}

#[test]
fn detail_page_yields_info() {
    let doc = detail_page();
    let info = FankitId::new(1234).load(&doc).unwrap();
    assert_eq!(info.id(), FankitId::new(1234));
    assert_eq!(info.ty(), "Wallpaper");
    assert_eq!(info.title(), "Summer 2021");
    let mut urls = info.image_urls();
    urls.sort();
    assert_eq!(
        urls,
        vec![
            "https://example.com/img/a.jpg".to_string(),
            "https://example.com/img/b.png".to_string(),
        ]
    );
    assert_eq!(info.item_name(), "1234-Wallpaper-Summer 2021");
}

#[test]
fn from_node_reads_subtree_only() {
    let doc = detail_page();
    assert_eq!(
        FankitInfo::from_node(FankitId::new(1), &doc, 12).unwrap_err(),
        FankitInfoError::MissingContents
    );
    assert!(FankitInfo::from_node(FankitId::new(1), &doc, 1).is_ok());
}

#[test]
fn missing_fields_are_errors() {
    let empty = Document { nodes: vec![] };
    assert_eq!(
        FankitId::new(1).load(&empty).unwrap_err(),
        FankitInfoError::MissingContents
    );
    let no_type = Document {
        nodes: vec![
            root(),
            element(1, "div", vec![attr("id", "contents")]),
            element(2, "h2", vec![attr("class", "title")]),
        ],
    };
    assert_eq!(
        FankitId::new(1).load(&no_type).unwrap_err(),
        FankitInfoError::MissingType
    );
    let no_title = Document {
        nodes: vec![
            root(),
            element(1, "div", vec![attr("id", "contents")]),
            element(2, "p", vec![attr("class", "fankit-type")]),
            element(1, "h2", vec![attr("class", "title")]),
        ],
    };
    assert_eq!(
        FankitId::new(1).load(&no_title).unwrap_err(),
        FankitInfoError::MissingTitle
    );
    assert_eq!(
        FankitInfoError::MissingTitle.message(),
        "Failed to get fankit title"
    );
}

#[test]
fn node_queries() {
    let doc = detail_page();
    assert!(node_has_id("contents", &doc.nodes[3]));
    assert!(!node_has_id("content", &doc.nodes[3]));
    assert!(node_has_class("fankit-type", &doc.nodes[4]));
    assert!(node_has_class("label", &doc.nodes[4]));
    assert!(!node_has_class("fankit", &doc.nodes[4]));
    assert!(!node_has_class("title", &doc.nodes[5]));
    assert!(attrs_has_class("b", &vec![attr("class", "\ta  b\n")]));
    assert!(!attrs_has_class("", &vec![attr("class", "a  b")]));
    assert!(!attrs_has_class("a b", &vec![attr("class", "a b")]));
    assert_eq!(inner_text(&doc, 3), "  Wallpaper \n Summer 2021");
    assert_eq!(inner_text(&doc, 0), "  Wallpaper \n Summer 2021");
}

#[test]
fn traverse_visits_subtree_in_preorder() {
    let doc = detail_page();
    let mut t = Traverse::new(&doc, 3);
    let mut seen = Vec::new();
    while let Some(k) = t.next() {
        seen.push(k);
    }
    assert_eq!(seen, vec![3, 4, 5, 6, 7, 8, 9, 10, 11]);
    let mut leaf = Traverse::new(&doc, 12);
    assert_eq!(leaf.next(), Some(12));
    assert_eq!(leaf.next(), None);
}

#[test]
fn anchors_are_deduplicated() {
    let doc = detail_page();
    let anchors = get_anchors(&doc, 3);
    assert_eq!(anchors.len(), 3);
    let all = get_anchors(&doc, 0);
    assert_eq!(all.len(), 4);
    assert_eq!(all[0], "https://example.com/outside.jpg");
}

#[test]
fn first_href_of_anchor_counts() {
    let doc = Document {
        nodes: vec![
            root(),
            element(
                1,
                "a",
                vec![attr("class", "x"), attr("href", "first"), attr("href", "second")],
            ),
            element(1, "link", vec![attr("href", "not-an-anchor")]),
            element(1, "a", vec![attr("name", "no-href")]),
        ],
    };
    assert_eq!(get_anchors(&doc, 0), vec!["first".to_string()]);
}

#[test]
fn listing_page_links_are_classified() {
    let doc = Document {
        nodes: vec![
            root(),
            anchor(1, "https://priconne-redive.jp/fankit02/1234/"),
            anchor(1, "https://priconne-redive.jp/fankit02/1234/"),
            anchor(1, "https://priconne-redive.jp/fankit02/77/"),
            anchor(1, "https://priconne-redive.jp/fankit02/page/2/"),
            anchor(1, "https://priconne-redive.jp/fankit02/"),
            anchor(1, "https://priconne-redive.jp/fankit02/about/"),
            anchor(1, "https://priconne-redive.jp/news/"),
            anchor(1, "https://example.com/fankit02/5/"),
        ],
    };
    let (mut items, pages) = FankitListPageIndex::new(1).load(&doc);
    items.sort();
    assert_eq!(items, vec![FankitId::new(77), FankitId::new(1234)]);
    assert_eq!(
        pages,
        vec![FankitListPageIndex::new(2), FankitListPageIndex::new(1)]
    );
    let (items, pages) = FankitListPageIndex::new(1).load(&Document { nodes: vec![] });
    assert!(items.is_empty() && pages.is_empty());
}
