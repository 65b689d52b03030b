use priconne_fankit_dl::text::{collapse_whitespace, parse_usize, push_decimal, trim_str};
use priconne_fankit_dl::{
    FankitId, FankitIdParseError, FankitListPageIndex, FankitListPageIndexParseError,
};

#[test]
fn id_to_url() {
    assert_eq!(
        FankitId::new(1234).to_url(),
        "https://priconne-redive.jp/fankit02/1234/"
    );
}

#[test]
fn list_index() {
    assert_eq!(
        "https://priconne-redive.jp/fankit02/1234/"
            .parse::<FankitId>()
            .ok(),
        Some(FankitId::new(1234))
    );
    assert!("https://priconne-redive.jp/fankit02/page/4/"
        .parse::<FankitId>()
        .is_err());
    assert!("https://priconne-redive.jp/".parse::<FankitId>().is_err());
}

#[test]
fn list_page_index_to_url() {
    assert_eq!(
        FankitListPageIndex::new(1).to_url(),
        "https://priconne-redive.jp/fankit02/"
    );
    assert_eq!(
        FankitListPageIndex::new(3).to_url(),
        "https://priconne-redive.jp/fankit02/page/3/"
    );
}

#[test]
fn from_list_index() {
    assert_eq!(
        "https://priconne-redive.jp/fankit02/"
            .parse::<FankitListPageIndex>()
            .ok(),
        Some(FankitListPageIndex::new(1))
    );
    assert_eq!(
        "https://priconne-redive.jp/fankit02/page/3/"
            .parse::<FankitListPageIndex>()
            .ok(),
        Some(FankitListPageIndex::new(3))
    );
    assert_eq!(
        "https://priconne-redive.jp/fankit02/page/4/"
            .parse::<FankitListPageIndex>()
            .ok(),
        Some(FankitListPageIndex::new(4))
    );
    assert!("https://priconne-redive.jp/"
        .parse::<FankitListPageIndex>()
        .is_err());
}

#[test]
fn item_url_round_trip_example() {
    let url = "https://priconne-redive.jp/fankit02/1234/";
    let id = FankitId::parse_url(url).unwrap();
    assert_eq!(id.to_usize(), 1234);
    assert_eq!(id.to_url(), url);
}

#[test]
fn item_url_round_trip_many() {
    for v in [0usize, 1, 9, 10, 99, 100, 4096, usize::MAX] {
        let id = FankitId::new(v);
        assert_eq!(FankitId::parse_url(&id.to_url()), Ok(id));
    }
}

#[test]
fn list_page_round_trip_example() {
    let page3 = "https://priconne-redive.jp/fankit02/page/3/";
    assert_eq!(
        FankitListPageIndex::parse_url(page3),
        Ok(FankitListPageIndex::new(3))
    );
    assert_eq!(FankitListPageIndex::new(3).to_url(), page3);
    let root = "https://priconne-redive.jp/fankit02/";
    assert_eq!(
        FankitListPageIndex::parse_url(root),
        Ok(FankitListPageIndex::new(1))
    );
    assert_eq!(FankitListPageIndex::new(1).to_url(), root);
}

#[test]
fn list_page_round_trip_many() {
    for v in [1usize, 2, 10, 12345, usize::MAX] {
        let p = FankitListPageIndex::new(v);
        assert_eq!(FankitListPageIndex::parse_url(&p.to_url()), Ok(p));
    }
}

#[test]
fn page_zero_formats_as_root() {
    assert_eq!(
        FankitListPageIndex::new(0).to_url(),
        "https://priconne-redive.jp/fankit02/"
    );
}

#[test]
fn item_parse_errors() {
    assert_eq!(
        FankitId::parse_url("https://example.com/fankit02/12/"),
        Err(FankitIdParseError::BaseMismatch)
    );
    assert_eq!(
        FankitId::parse_url("https://priconne-redive.jp/fankit02/page/4/"),
        Err(FankitIdParseError::InvalidPath)
    );
    assert_eq!(
        FankitId::parse_url("https://priconne-redive.jp/fankit02/"),
        Err(FankitIdParseError::InvalidPath)
    );
    assert_eq!(
        FankitId::parse_url("https://priconne-redive.jp/fankit02/99999999999999999999999/"),
        Err(FankitIdParseError::InvalidPath)
    );
    assert_eq!(FankitIdParseError::BaseMismatch.message(), "Base URL mismatch");
    assert_eq!(FankitIdParseError::InvalidPath.message(), "Invalid path");
}

#[test]
fn item_parse_trailing_slashes_optional() {
    assert_eq!(
        FankitId::parse_url("https://priconne-redive.jp/fankit02/77"),
        Ok(FankitId::new(77))
    );
    assert_eq!(
        FankitId::parse_url("https://priconne-redive.jp/fankit02/77///"),
        Ok(FankitId::new(77))
    );
    assert_eq!(
        FankitId::parse_url("https://priconne-redive.jp/fankit02/+77/"),
        Ok(FankitId::new(77))
    );
}

#[test]
fn list_page_parse_errors() {
    assert_eq!(
        FankitListPageIndex::parse_url("https://priconne-redive.jp/"),
        Err(FankitListPageIndexParseError::BaseMismatch)
    );
    assert_eq!(
        FankitListPageIndex::parse_url("https://priconne-redive.jp/fankit02/1234/"),
        Err(FankitListPageIndexParseError::BaseMismatch)
    );
    assert_eq!(
        FankitListPageIndex::parse_url("https://priconne-redive.jp/fankit02/page/x/"),
        Err(FankitListPageIndexParseError::InvalidPath)
    );
    assert_eq!(
        FankitListPageIndexParseError::InvalidPath.message(),
        "Invalid path"
    );
}

#[test]
fn decimal_parsing_and_formatting() {
    let s = "a+42b";
    assert_eq!(parse_usize(s, 1, 4), Some(42));
    assert_eq!(parse_usize(s, 2, 4), Some(42));
    assert_eq!(parse_usize(s, 1, 2), None);
    assert_eq!(parse_usize(s, 0, 0), None);
    assert_eq!(parse_usize("18446744073709551615", 0, 20), Some(usize::MAX));
    let mut out = String::from("n=");
    push_decimal(&mut out, 907);
    assert_eq!(out, "n=907");
}

#[test]
fn whitespace_helpers() {
    assert_eq!(collapse_whitespace("  Wallpaper \n "), "Wallpaper");
    assert_eq!(collapse_whitespace("a \t\n b\u{3000}c"), "a b c");
    assert_eq!(collapse_whitespace(" \n "), "");
    assert_eq!(trim_str("\t x y \n"), "x y");
    assert_eq!(trim_str("   "), "");
}

#[test]
fn list_page_zero_is_invalid() {
    assert_eq!(
        FankitListPageIndex::parse_url("https://priconne-redive.jp/fankit02/page/0/"),
        Err(FankitListPageIndexParseError::InvalidPath)
    );
    assert_eq!(
        FankitListPageIndex::parse_url("https://priconne-redive.jp/fankit02/page/00"),
        Err(FankitListPageIndexParseError::InvalidPath)
    );
}

#[test]
fn no_url_is_item_and_page() {
    for url in [
        "https://priconne-redive.jp/fankit02/",
        "https://priconne-redive.jp/fankit02/page/3/",
        "https://priconne-redive.jp/fankit02/12/",
        "https://priconne-redive.jp/fankit02/page/",
    ] {
        assert!(!(FankitId::parse_url(url).is_ok() && FankitListPageIndex::parse_url(url).is_ok()));
    }
}
