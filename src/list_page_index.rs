//! Index of one listing page of the catalog and its URL codec.

use vstd::prelude::*;

use crate::id::{lemma_trim_decimal_slash, parse_item_url, FankitId, FankitIdParseError};
use crate::node::{get_anchors, links_to, subtree_end, Document, DomNode};
use crate::text::{
    is_digit_spec, lemma_trim_end_slashes_prefix, unsigned_digits,
    decimal, lemma_parse_decimal, parse_usize, parse_usize_spec, push_char, push_decimal,
    starts_with, str_eq, trim_end_slashes, trim_end_slashes_at,
};
use crate::{URL_FANKIT_ITEM_BASE, URL_FANKIT_LIST_BASE, URL_FANKIT_TOP};

verus! {

/// Fankit list page index. Index 1 is the catalog root.
#[derive(Debug, Clone, Copy, PartialEq, Eq, Structural, Hash)]
pub struct FankitListPageIndex(pub usize);

/// `FankitListPageIndex` parse error.
#[derive(Debug, Clone, Copy, PartialEq, Eq, Structural)]
pub enum FankitListPageIndexParseError {
    /// Base URL mismatch.
    BaseMismatch,
    /// Invalid path.
    InvalidPath,
}

/// The URL of listing page `index`: the catalog root for indices up to 1,
/// `<list-base><index>/` above.
pub open spec fn list_page_url(index: usize) -> Seq<char> {
    if index <= 1 {
        URL_FANKIT_TOP@
    } else {
        URL_FANKIT_LIST_BASE@ + decimal(index as nat) + seq!['/']
    }
}

/// What parsing `url` as a listing page URL gives. The catalog root is
/// page 1; any other URL must begin with the list base, and what follows,
/// trailing slashes dropped, must parse as a `usize` of at least 1 (page 1
/// and the root are one page, and there is no page 0).
pub open spec fn parse_list_page_url(url: Seq<char>) -> Result<
    FankitListPageIndex,
    FankitListPageIndexParseError,
> {
    let base = URL_FANKIT_LIST_BASE@;
    if url == URL_FANKIT_TOP@ {
        Ok(FankitListPageIndex(1))
    } else if !base.is_prefix_of(url) {
        Err(FankitListPageIndexParseError::BaseMismatch)
    } else {
        match parse_usize_spec(trim_end_slashes(url.subrange(base.len() as int, url.len() as int))) {
            Some(v) => if v >= 1 {
                Ok(FankitListPageIndex(v))
            } else {
                Err(FankitListPageIndexParseError::InvalidPath)
            },
            None => Err(FankitListPageIndexParseError::InvalidPath),
        }
    }
}

/// One past the last node that a whole-page scan covers: the subtree of
/// the root.
pub open spec fn page_end(nodes: Seq<DomNode>) -> int {
    if nodes.len() == 0 {
        0
    } else {
        subtree_end(nodes, 0)
    }
}

/// Whether the page links to fankit `id`: some link under the catalog
/// prefix parses as the URL of that fankit.
pub open spec fn page_links_item(nodes: Seq<DomNode>, id: FankitId) -> bool {
    exists|h: Seq<char>|
        #[trigger] links_to(nodes, 0, page_end(nodes), h) && URL_FANKIT_TOP@.is_prefix_of(h)
            && parse_item_url(h) == Ok::<FankitId, FankitIdParseError>(id)
}

/// Whether the page links to listing page `p`: some link under the catalog
/// prefix is no fankit URL and parses as the URL of that listing page.
pub open spec fn page_links_list(nodes: Seq<DomNode>, p: FankitListPageIndex) -> bool {
    exists|h: Seq<char>|
        #[trigger] links_to(nodes, 0, page_end(nodes), h) && URL_FANKIT_TOP@.is_prefix_of(h)
            && parse_item_url(h) is Err && parse_list_page_url(h) == Ok::<
            FankitListPageIndex,
            FankitListPageIndexParseError,
        >(p)
}

impl FankitListPageIndex {
    /// Reads the parsed listing page: the fankits it links to and the other
    /// listing pages it links to. The page is read from the subtree of node
    /// 0; on a well-formed document (`Document::wf`) that subtree is the
    /// whole page (`lemma_root_spans_document`).
    pub fn load(self, doc: &Document) -> (r: (Vec<FankitId>, Vec<FankitListPageIndex>))
        ensures
            forall|k: int| 0 <= k < r.0@.len() ==> page_links_item(doc.nodes@, #[trigger] r.0@[k]),
            forall|id: FankitId| #[trigger] page_links_item(doc.nodes@, id) ==> r.0@.contains(id),
            forall|k: int| 0 <= k < r.1@.len() ==> page_links_list(doc.nodes@, #[trigger] r.1@[k]),
            forall|k: int| 0 <= k < r.1@.len() ==> (#[trigger] r.1@[k]).0 >= 1,
            forall|p: FankitListPageIndex| #[trigger] page_links_list(doc.nodes@, p) ==> r.1@.contains(
                p,
            ),
    {
        let mut fankits: Vec<FankitId> = Vec::new();
        let mut list_pages: Vec<FankitListPageIndex> = Vec::new();
        if doc.nodes.len() == 0 {
            return (fankits, list_pages);
        }
        let ghost nodes = doc.nodes@;
        let ghost end = page_end(nodes);
        let anchors = get_anchors(doc, 0);
        let mut i: usize = 0;
        while i < anchors.len()
            invariant
                i <= anchors@.len(),
                nodes == doc.nodes@,
                nodes.len() > 0,
                end == page_end(nodes),
                forall|a: int|
                    0 <= a < anchors@.len() ==> links_to(nodes, 0, end, #[trigger] anchors@[a]@),
                forall|h: Seq<char>|
                    #[trigger] links_to(nodes, 0, end, h) ==> exists|a: int|
                        0 <= a < anchors@.len() && #[trigger] anchors@[a]@ == h,
                forall|k: int| 0 <= k < fankits@.len() ==> page_links_item(nodes, #[trigger] fankits@[k]),
                forall|k: int|
                    0 <= k < list_pages@.len() ==> page_links_list(nodes, #[trigger] list_pages@[k]),
                forall|k: int| 0 <= k < list_pages@.len() ==> (#[trigger] list_pages@[k]).0 >= 1,
                forall|a: int|
                    0 <= a < i && URL_FANKIT_TOP@.is_prefix_of(#[trigger] anchors@[a]@) ==> match parse_item_url(anchors@[a]@) {
                        Ok(id) => fankits@.contains(id),
                        Err(_) => match parse_list_page_url(anchors@[a]@) {
                            Ok(p) => list_pages@.contains(p),
                            Err(_) => true,
                        },
                    },
            decreases anchors@.len() - i,
        {
            let href = anchors[i].as_str();
            let ghost h = anchors@[i as int]@;
            let ghost before_f = fankits@;
            let ghost before_l = list_pages@;
            if starts_with(href, URL_FANKIT_TOP) {
                match FankitId::parse_url(href) {
                    Ok(id) => {
                        fankits.push(id);
                        assert(fankits@[before_f.len() as int] == id);
                    },
                    Err(_) => match FankitListPageIndex::parse_url(href) {
                        Ok(p) => {
                            list_pages.push(p);
                            assert(list_pages@[before_l.len() as int] == p);
                        },
                        Err(_) => {},
                    },
                }
            }
            assert forall|a: int|
                0 <= a < i + 1 && URL_FANKIT_TOP@.is_prefix_of(#[trigger] anchors@[a]@) implies match parse_item_url(anchors@[a]@) {
                    Ok(id) => fankits@.contains(id),
                    Err(_) => match parse_list_page_url(anchors@[a]@) {
                        Ok(p) => list_pages@.contains(p),
                        Err(_) => true,
                    },
                } by {
                if a < i {
                    match parse_item_url(anchors@[a]@) {
                        Ok(id) => {
                            let w = choose|w: int| 0 <= w < before_f.len() && before_f[w] == id;
                            assert(fankits@[w] == id);
                        },
                        Err(_) => match parse_list_page_url(anchors@[a]@) {
                            Ok(p) => {
                                let w = choose|w: int| 0 <= w < before_l.len() && before_l[w] == p;
                                assert(list_pages@[w] == p);
                            },
                            Err(_) => {},
                        },
                    }
                }
            }
            i += 1;
        }
        proof {
            assert forall|id: FankitId| #[trigger] page_links_item(nodes, id) implies fankits@.contains(id) by {
                let h = choose|h: Seq<char>|
                    #[trigger] links_to(nodes, 0, end, h) && URL_FANKIT_TOP@.is_prefix_of(h)
                        && parse_item_url(h) == Ok::<FankitId, FankitIdParseError>(id);
                let a = choose|a: int| 0 <= a < anchors@.len() && #[trigger] anchors@[a]@ == h;
            }
            assert forall|p: FankitListPageIndex| #[trigger] page_links_list(nodes, p) implies list_pages@.contains(p) by {
                let h = choose|h: Seq<char>|
                    #[trigger] links_to(nodes, 0, end, h) && URL_FANKIT_TOP@.is_prefix_of(h)
                        && parse_item_url(h) is Err && parse_list_page_url(h) == Ok::<
                        FankitListPageIndex,
                        FankitListPageIndexParseError,
                    >(p);
                let a = choose|a: int| 0 <= a < anchors@.len() && #[trigger] anchors@[a]@ == h;
            }
        }
        (fankits, list_pages)
    }

    /// Creates a new `FankitListPageIndex`.
    pub fn new(v: usize) -> (r: Self)
        ensures
            r.0 == v,
    {
        FankitListPageIndex(v)
    }

    /// Returns the URL of the fankit list page.
    pub fn to_url(self) -> (r: String)
        ensures
            r@ == list_page_url(self.0),
    {
        if self.0 <= 1 {
            String::from_str(URL_FANKIT_TOP)
        } else {
            let mut s = String::from_str(URL_FANKIT_LIST_BASE);
            push_decimal(&mut s, self.0);
            push_char(&mut s, '/');
            s
        }
    }

    /// Returns `usize` value.
    pub fn to_usize(self) -> (r: usize)
        ensures
            r == self.0,
    {
        self.0
    }

    /// Parses the URL of a listing page.
    pub fn parse_url(url: &str) -> (r: Result<Self, FankitListPageIndexParseError>)
        ensures
            r == parse_list_page_url(url@),
    {
        if str_eq(url, URL_FANKIT_TOP) {
            return Ok(FankitListPageIndex(1));
        }
        if !starts_with(url, URL_FANKIT_LIST_BASE) {
            return Err(FankitListPageIndexParseError::BaseMismatch);
        }
        let from = URL_FANKIT_LIST_BASE.unicode_len();
        let len = url.unicode_len();
        let to = trim_end_slashes_at(url, from, len);
        match parse_usize(url, from, to) {
            Some(v) => if v >= 1 {
                Ok(FankitListPageIndex(v))
            } else {
                Err(FankitListPageIndexParseError::InvalidPath)
            },
            None => Err(FankitListPageIndexParseError::InvalidPath),
        }
    }
}

impl FankitListPageIndexParseError {
    /// Describes the error.
    pub fn message(&self) -> (r: &'static str)
        ensures
            *self is BaseMismatch ==> r@ == "Base URL mismatch"@,
            *self is InvalidPath ==> r@ == "Invalid path"@,
    {
        match self {
            FankitListPageIndexParseError::BaseMismatch => "Base URL mismatch",
            FankitListPageIndexParseError::InvalidPath => "Invalid path",
        }
    }
}

impl std::str::FromStr for FankitListPageIndex {
    type Err = FankitListPageIndexParseError;

    fn from_str(url: &str) -> Result<Self, Self::Err> {
        Self::parse_url(url)
    }
}

/// Parsing the URL of a listing page gives that page back, for every
/// index from 1 on (index 1 through the bare catalog root).
pub proof fn lemma_list_page_url_round_trip(index: FankitListPageIndex)
    requires
        index.0 >= 1,
    ensures
        parse_list_page_url(list_page_url(index.0)) == Ok::<
            FankitListPageIndex,
            FankitListPageIndexParseError,
        >(index),
{
    if index.0 > 1 {
        reveal_strlit("https://priconne-redive.jp/fankit02/");
        reveal_strlit("https://priconne-redive.jp/fankit02/page/");
        let base = URL_FANKIT_LIST_BASE@;
        let url = list_page_url(index.0);
        assert(url.len() > URL_FANKIT_TOP@.len());
        assert(url.subrange(0, base.len() as int) =~= base);
        assert(url.subrange(base.len() as int, url.len() as int) =~= decimal(index.0 as nat)
            + seq!['/']);
        lemma_trim_decimal_slash(index.0 as nat);
        lemma_parse_decimal(index.0);
    }
}

/// A listing page URL never parses to an index below 1.
pub proof fn lemma_parsed_page_positive(url: Seq<char>)
    ensures
        parse_list_page_url(url) is Ok ==> parse_list_page_url(url)->Ok_0.0 >= 1,
{
}

/// Distinct listing pages have distinct URLs, so fetching each page once
/// fetches each listing URL once.
pub proof fn lemma_page_url_injective(a: FankitListPageIndex, b: FankitListPageIndex)
    requires
        a.0 >= 1,
        b.0 >= 1,
        list_page_url(a.0) == list_page_url(b.0),
    ensures
        a == b,
{
    lemma_list_page_url_round_trip(a);
    lemma_list_page_url_round_trip(b);
}

/// No URL is both a fankit URL and a listing page URL.
pub proof fn lemma_no_url_is_both(url: Seq<char>)
    ensures
        !(parse_item_url(url) is Ok && parse_list_page_url(url) is Ok),
{
    reveal_strlit("https://priconne-redive.jp/fankit02/");
    reveal_strlit("https://priconne-redive.jp/fankit02/page/");
    let top = URL_FANKIT_TOP@;
    let item_base = URL_FANKIT_ITEM_BASE@;
    assert(item_base == top);
    if parse_item_url(url) is Ok && parse_list_page_url(url) is Ok {
        let rest = url.subrange(top.len() as int, url.len() as int);
        lemma_trim_end_slashes_prefix(rest);
        let t = trim_end_slashes(rest);
        if url == top {
            assert(rest.len() == 0);
            assert(t.len() == 0);
            assert(unsigned_digits(t) =~= t);
        } else {
            let base = URL_FANKIT_LIST_BASE@;
            assert(base.is_prefix_of(url));
            assert(url[top.len() as int] == base[top.len() as int]);
            assert(rest[0] == 'p');
            assert(t[0] == rest[0]);
            assert(unsigned_digits(t) == t);
            assert(!is_digit_spec(t[0]));
        }
    }
}

} // verus!
