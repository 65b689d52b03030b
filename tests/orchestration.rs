use priconne_fankit_dl::download::{DownloadAction, DownloadEvent, DownloadRun};
use priconne_fankit_dl::info::{FankitInfo, FankitInfoError};
use priconne_fankit_dl::node::{Attribute, Document, DomNode, NodeData};
use priconne_fankit_dl::FankitId;

fn node(depth: usize, name: &str, attrs: &[(&str, &str)]) -> DomNode {
    DomNode {
        depth,
        data: NodeData::Element {
            name: name.to_string(),
            attrs: attrs
                .iter()
                .map(|(n, v)| Attribute {
                    name: n.to_string(),
                    value: v.to_string(),
                })
                .collect(),
        },
    }
}

fn text_node(depth: usize, contents: &str) -> DomNode {
    DomNode {
        depth,
        data: NodeData::Text {
            contents: contents.to_string(),
        },
    }
}

/// Metadata of fankit `id` with the given image links.
fn info_with_images(id: usize, images: &[&str]) -> FankitInfo {
    let mut nodes = vec![
        DomNode {
            depth: 0,
            data: NodeData::Other,
        },
        node(1, "div", &[("id", "contents")]),
        node(2, "p", &[("class", "fankit-type")]),
        text_node(3, "Icon"),
        node(2, "h2", &[("class", "title")]),
        text_node(3, "Spring"),
    ];
    for href in images {
        nodes.push(node(2, "a", &[("href", href)]));
    }
    FankitId::new(id).load(&Document { nodes }).unwrap()
}

fn expect_fetch(action: &DownloadAction, want_url: &str, want_file: &str) {
    match action {
        DownloadAction::FetchImage { url, file } => {
            assert_eq!(url, want_url);
            assert_eq!(file, want_file);
        }
        other => panic!("expected a fetch, got {:?}", other),
    }
}

#[test]
fn empty_plan_is_done_at_once() {
    let ids = vec![FankitId::new(1)];
    let (_, action) = DownloadRun::new(&ids, &ids);
    assert!(matches!(action, DownloadAction::Done));
}

#[test]
fn failed_image_is_skipped_and_next_is_tried() {
    let discovered = vec![FankitId::new(3), FankitId::new(5)];
    let inventory = vec![FankitId::new(3)];
    let (mut run, action) = DownloadRun::new(&discovered, &inventory);
    assert!(matches!(action, DownloadAction::Load(id) if id == FankitId::new(5)));

    let info = info_with_images(
        5,
        &["https://example.com/img/a.jpg", "https://example.com/img/b.png"],
    );
    let mut urls = info.image_urls();
    let action = run.step(DownloadEvent::Loaded(Ok(info)));
    match &action {
        DownloadAction::CreateDir(name) => assert_eq!(name, "5-Icon-Spring"),
        other => panic!("expected a directory, got {:?}", other),
    }
    // A failed directory creation does not stop the item.
    let action = run.step(DownloadEvent::DirCreated(false));
    let first = urls.remove(0);
    let first_file = first.rsplit('/').next().unwrap().to_string();
    expect_fetch(&action, &first, &first_file);
    // The first image fails; the second is still fetched.
    let action = run.step(DownloadEvent::ImageDone(false));
    let second = urls.remove(0);
    let second_file = second.rsplit('/').next().unwrap().to_string();
    expect_fetch(&action, &second, &second_file);
    let action = run.step(DownloadEvent::ImageDone(true));
    assert!(matches!(action, DownloadAction::Sleep));
    let action = run.step(DownloadEvent::Slept);
    assert!(matches!(action, DownloadAction::Done));
}

#[test]
fn image_without_slash_is_passed_over() {
    let discovered = vec![FankitId::new(8)];
    let (mut run, _) = DownloadRun::new(&discovered, &vec![]);
    let info = info_with_images(8, &["plain.jpg", "https://example.com/x/c.jpg"]);
    run.step(DownloadEvent::Loaded(Ok(info)));
    let action = run.step(DownloadEvent::DirCreated(true));
    expect_fetch(&action, "https://example.com/x/c.jpg", "c.jpg");
}

#[test]
fn one_pause_per_item_then_next_item() {
    let discovered = vec![FankitId::new(1), FankitId::new(2)];
    let (mut run, _) = DownloadRun::new(&discovered, &vec![]);
    run.step(DownloadEvent::Loaded(Ok(info_with_images(1, &[]))));
    let action = run.step(DownloadEvent::DirCreated(true));
    assert!(matches!(action, DownloadAction::Sleep));
    // An event that answers no pending action changes nothing.
    let action = run.step(DownloadEvent::ImageDone(true));
    assert!(matches!(action, DownloadAction::Sleep));
    let action = run.step(DownloadEvent::Slept);
    assert!(matches!(action, DownloadAction::Load(id) if id == FankitId::new(2)));
}

#[test]
fn failed_item_load_aborts() {
    let discovered = vec![FankitId::new(1), FankitId::new(2)];
    let (mut run, _) = DownloadRun::new(&discovered, &vec![]);
    let action = run.step(DownloadEvent::Loaded(Err(FankitInfoError::MissingTitle)));
    assert!(matches!(
        action,
        DownloadAction::Abort(FankitInfoError::MissingTitle)
    ));
    let action = run.step(DownloadEvent::Slept);
    assert!(matches!(
        action,
        DownloadAction::Abort(FankitInfoError::MissingTitle)
    ));
}
