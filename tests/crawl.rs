use priconne_fankit_dl::discovery::Discovery;
use priconne_fankit_dl::download::{download_plan, entry_fankit_id, image_file_name, local_inventory};
use priconne_fankit_dl::{FankitId, FankitListPageIndex};

fn ids(v: &[usize]) -> Vec<FankitId> {
    v.iter().map(|&x| FankitId::new(x)).collect()
}

fn pages(v: &[usize]) -> Vec<FankitListPageIndex> {
    v.iter().map(|&x| FankitListPageIndex::new(x)).collect()
}

#[test]
fn cyclic_listing_pages_visited_once() {
    // Page 1 links to page 2, and page 2 links back to page 1.
    let mut d = Discovery::new();
    let mut visited = Vec::new();
    while let Some(p) = d.next_page() {
        visited.push(p.to_usize());
        match p.to_usize() {
            1 => d.record_page(&ids(&[10, 11]), &pages(&[2, 1])),
            2 => d.record_page(&ids(&[11, 12]), &pages(&[1, 2])),
            _ => unreachable!(),
        }
        assert!(visited.len() <= 2);
    }
    assert_eq!(visited, vec![1, 2]);
    let mut found = d.found_fankits();
    found.sort();
    assert_eq!(found, ids(&[10, 11, 12]));
}

#[test]
fn breadth_first_order() {
    let mut d = Discovery::new();
    let mut visited = Vec::new();
    while let Some(p) = d.next_page() {
        visited.push(p.to_usize());
        match p.to_usize() {
            1 => d.record_page(&ids(&[]), &pages(&[2, 3])),
            2 => d.record_page(&ids(&[]), &pages(&[4, 3])),
            3 => d.record_page(&ids(&[]), &pages(&[5])),
            _ => d.record_page(&ids(&[]), &pages(&[])),
        }
    }
    assert_eq!(visited, vec![1, 2, 3, 4, 5]);
}

#[test]
fn known_first_page_stops_early() {
    let known = ids(&[3, 2, 1]);
    let first = ids(&[1, 2, 3]);
    assert!(Discovery::after_first_page(&known, &first, &pages(&[2])).is_none());
    assert!(Discovery::after_first_page(&known, &ids(&[]), &pages(&[2])).is_none());
}

#[test]
fn new_item_on_first_page_continues() {
    let known = ids(&[1, 2]);
    let first = ids(&[1, 2, 3]);
    let mut d = Discovery::after_first_page(&known, &first, &pages(&[1, 2])).unwrap();
    // Page 1 is done already.
    assert_eq!(d.next_page(), Some(FankitListPageIndex::new(2)));
    d.record_page(&ids(&[4]), &pages(&[1]));
    assert_eq!(d.next_page(), None);
    let mut found = d.found_fankits();
    found.sort();
    assert_eq!(found, ids(&[1, 2, 3, 4]));
}

#[test]
fn inventory_from_entry_names() {
    assert_eq!(entry_fankit_id("1234-Wallpaper-Summer"), Some(FankitId::new(1234)));
    assert_eq!(entry_fankit_id("1234"), None);
    assert_eq!(entry_fankit_id("abc-x"), None);
    assert_eq!(entry_fankit_id("-x"), None);
    let names = vec![
        "12-Icon-A".to_string(),
        "notes.txt".to_string(),
        "x-y".to_string(),
        "7-Wallpaper-B".to_string(),
    ];
    let mut inv = local_inventory(&names);
    inv.sort();
    assert_eq!(inv, ids(&[7, 12]));
}

#[test]
fn plan_skips_downloaded_items() {
    let discovered = ids(&[5, 7, 9, 12]);
    let inventory = ids(&[7, 12, 100]);
    assert_eq!(download_plan(&discovered, &inventory), ids(&[5, 9]));
    assert!(download_plan(&discovered, &discovered).is_empty());
}

#[test]
fn second_run_downloads_nothing() {
    let discovered = ids(&[5, 9]);
    let names = vec!["5-Icon-Spring".to_string(), "9-Wallpaper-Summer 2021".to_string()];
    let inventory = local_inventory(&names);
    assert!(download_plan(&discovered, &inventory).is_empty());
}

#[test]
fn image_file_names() {
    assert_eq!(
        image_file_name("https://example.com/img/a.jpg"),
        Some("a.jpg".to_string())
    );
    assert_eq!(image_file_name("https://example.com/"), Some(String::new()));
    assert_eq!(image_file_name("a.jpg"), None);
}
