//! Downloads: which fankits a run still has to fetch, given the directory
//! entries a previous run left, where each image goes, and the policy of
//! the run as a state machine (`DownloadRun`). Its driver performs each
//! action (a page fetch, a directory, an image, a pause) and reports the
//! outcome back as an event.

use vstd::prelude::*;

use crate::discovery::contains_id;
use crate::id::FankitId;
use crate::info::{item_name_spec, FankitInfo, FankitInfoError, FankitInfoView};
use crate::text::{decimal, is_digit_spec, lemma_decimal_digits, lemma_parse_decimal, parse_usize, parse_usize_spec};

verus! {

/// Index of the first `c` in `s` from `from` on, or the length of `s` if
/// there is none.
pub open spec fn first_index_of(s: Seq<char>, c: char, from: int) -> int
    decreases s.len() - from,
{
    if from < 0 || from >= s.len() {
        s.len() as int
    } else if s[from] == c {
        from
    } else {
        first_index_of(s, c, from + 1)
    }
}

/// The fankit a directory entry named `name` holds: the part of the name
/// before its first `-`, read as a number.
pub open spec fn entry_id_spec(name: Seq<char>) -> Option<FankitId> {
    let k = first_index_of(name, '-', 0);
    if k >= name.len() {
        None
    } else {
        match parse_usize_spec(name.subrange(0, k)) {
            Some(v) => Some(FankitId(v)),
            None => None,
        }
    }
}

/// Whether some entry of `names` holds fankit `id`.
pub open spec fn inventory_has(names: Seq<String>, id: FankitId) -> bool {
    exists|i: int| 0 <= i < names.len() && entry_id_spec(#[trigger] names[i]@) == Some(id)
}

/// The fankits of `discovered` that `inventory` does not hold, in order.
pub open spec fn missing(discovered: Seq<FankitId>, inventory: Seq<FankitId>) -> Seq<FankitId>
    decreases discovered.len(),
{
    if discovered.len() == 0 {
        discovered
    } else {
        let p = missing(discovered.drop_last(), inventory);
        if inventory.contains(discovered.last()) {
            p
        } else {
            p.push(discovered.last())
        }
    }
}

/// Index of the last `/` of `s`, if any.
pub open spec fn last_slash(s: Seq<char>, to: int) -> Option<int>
    decreases to,
{
    if to <= 0 {
        None
    } else if s[to - 1] == '/' {
        Some(to - 1)
    } else {
        last_slash(s, to - 1)
    }
}

/// The file name of an image URL: what follows its last `/`.
pub open spec fn image_file_name_spec(url: Seq<char>) -> Option<Seq<char>> {
    match last_slash(url, url.len() as int) {
        Some(k) => Some(url.subrange(k + 1, url.len() as int)),
        None => None,
    }
}

/// The fankit that the directory entry `name` holds, if its name starts
/// with a number followed by `-`.
pub fn entry_fankit_id(name: &str) -> (r: Option<FankitId>)
    ensures
        r == entry_id_spec(name@),
{
    let n = name.unicode_len();
    let mut k: usize = 0;
    while k < n && name.get_char(k) != '-'
        invariant
            n == name@.len(),
            k <= n,
            first_index_of(name@, '-', 0) == first_index_of(name@, '-', k as int),
        decreases n - k,
    {
        k += 1;
    }
    if k >= n {
        return None;
    }
    match parse_usize(name, 0, k) {
        Some(v) => Some(FankitId(v)),
        None => None,
    }
}

/// The fankits that the directory entries `names` hold.
pub fn local_inventory(names: &Vec<String>) -> (r: Vec<FankitId>)
    ensures
        forall|id: FankitId| #[trigger] r@.contains(id) <==> inventory_has(names@, id),
{
    let mut out: Vec<FankitId> = Vec::new();
    let mut i: usize = 0;
    while i < names.len()
        invariant
            i <= names@.len(),
            forall|id: FankitId|
                #[trigger] out@.contains(id) <==> inventory_has(names@.subrange(0, i as int), id),
        decreases names@.len() - i,
    {
        let ghost before = out@;
        let ghost pre = names@.subrange(0, i as int);
        let ghost nxt = names@.subrange(0, i + 1);
        let e = entry_fankit_id(names[i].as_str());
        if let Some(id) = e {
            out.push(id);
        }
        assert forall|id: FankitId| #[trigger] out@.contains(id) <==> inventory_has(nxt, id) by {
            assert(before.contains(id) <==> inventory_has(pre, id));
            if inventory_has(pre, id) {
                let w = choose|w: int| 0 <= w < pre.len() && entry_id_spec(#[trigger] pre[w]@) == Some(id);
                assert(nxt[w] == pre[w]);
            }
            if inventory_has(nxt, id) {
                let w = choose|w: int| 0 <= w < nxt.len() && entry_id_spec(#[trigger] nxt[w]@) == Some(id);
                if w < i {
                    assert(nxt[w] == pre[w]);
                } else {
                    assert(out@[out@.len() - 1] == id);
                }
            }
            if before.contains(id) {
                let w = choose|w: int| 0 <= w < before.len() && before[w] == id;
                assert(out@[w] == id);
            }
            if out@.contains(id) {
                let w = choose|w: int| 0 <= w < out@.len() && out@[w] == id;
                if w < before.len() {
                    assert(before[w] == id);
                } else {
                    assert(nxt[i as int] == names@[i as int]);
                }
            }
        }
        i += 1;
    }
    assert(names@.subrange(0, i as int) =~= names@);
    out
}

/// The fankits of `discovered` still to fetch: those `inventory` does not
/// hold, in the order of `discovered`.
pub fn download_plan(discovered: &Vec<FankitId>, inventory: &Vec<FankitId>) -> (r: Vec<FankitId>)
    ensures
        r@ == missing(discovered@, inventory@),
{
    let mut out: Vec<FankitId> = Vec::new();
    let mut i: usize = 0;
    while i < discovered.len()
        invariant
            i <= discovered@.len(),
            out@ == missing(discovered@.subrange(0, i as int), inventory@),
        decreases discovered@.len() - i,
    {
        let id = discovered[i];
        assert(discovered@.subrange(0, i + 1).drop_last() =~= discovered@.subrange(0, i as int));
        if !contains_id(inventory, id) {
            out.push(id);
        }
        i += 1;
    }
    assert(discovered@.subrange(0, i as int) =~= discovered@);
    out
}

/// The file name an image is saved under: what follows the last `/` of its
/// URL, or `None` for a URL without `/`.
pub fn image_file_name(url: &str) -> (r: Option<String>)
    ensures
        match image_file_name_spec(url@) {
            Some(f) => r is Some && r->0@ == f,
            None => r is None,
        },
{
    let n = url.unicode_len();
    let mut k: usize = n;
    while k > 0 && url.get_char(k - 1) != '/'
        invariant
            n == url@.len(),
            k <= n,
            last_slash(url@, n as int) == last_slash(url@, k as int),
        decreases k,
    {
        k -= 1;
    }
    if k == 0 {
        return None;
    }
    Some(String::from_str(url.substring_char(k, n)))
}

/// The first `-` of an item name is the one after the fankit's number.
proof fn lemma_first_dash_of_item_name(info: FankitInfoView, from: int)
    requires
        0 <= from <= decimal(info.id.0 as nat).len(),
    ensures
        first_index_of(item_name_spec(info), '-', from) == decimal(info.id.0 as nat).len(),
    decreases decimal(info.id.0 as nat).len() - from,
{
    let d = decimal(info.id.0 as nat);
    let name = item_name_spec(info);
    lemma_decimal_digits(info.id.0 as nat);
    if from < d.len() {
        assert(name[from] == d[from]);
        assert(is_digit_spec(d[from]));
        lemma_first_dash_of_item_name(info, from + 1);
    } else {
        assert(name[from] == '-');
    }
}

/// The directory named after a fankit is read back as that fankit.
pub proof fn lemma_item_name_entry(info: FankitInfoView)
    ensures
        entry_id_spec(item_name_spec(info)) == Some(info.id),
{
    let d = decimal(info.id.0 as nat);
    let name = item_name_spec(info);
    lemma_first_dash_of_item_name(info, 0);
    assert(name.subrange(0, d.len() as int) =~= d);
    lemma_parse_decimal(info.id.0);
}

/// A fankit the inventory holds is left out of the plan, and one it does
/// not hold is kept.
proof fn lemma_missing_contains(discovered: Seq<FankitId>, inventory: Seq<FankitId>, id: FankitId)
    ensures
        missing(discovered, inventory).contains(id) <==> (discovered.contains(id)
            && !inventory.contains(id)),
    decreases discovered.len(),
{
    if discovered.len() > 0 {
        let pre = discovered.drop_last();
        lemma_missing_contains(pre, inventory, id);
        let p = missing(pre, inventory);
        if discovered.contains(id) && id != discovered.last() {
            let w = choose|w: int| 0 <= w < discovered.len() && discovered[w] == id;
            assert(pre[w] == id);
        }
        if pre.contains(id) {
            let w = choose|w: int| 0 <= w < pre.len() && pre[w] == id;
            assert(discovered[w] == id);
        }
        if !inventory.contains(discovered.last()) {
            let q = p.push(discovered.last());
            assert(q[q.len() - 1] == discovered.last());
            if p.contains(id) {
                let w = choose|w: int| 0 <= w < p.len() && p[w] == id;
                assert(q[w] == id);
            }
            if q.contains(id) && id != discovered.last() {
                let w = choose|w: int| 0 <= w < q.len() && q[w] == id;
                assert(p[w] == id);
            }
        }
        assert(discovered[discovered.len() - 1] == discovered.last());
    }
}

/// Running twice in a row fetches nothing the second time: once every
/// discovered fankit has a directory named after its metadata, the
/// inventory read back from the directory entries holds each of them, and
/// the plan of the second run is empty.
pub proof fn lemma_second_run_fetches_nothing(
    discovered: Seq<FankitId>,
    infos: Seq<FankitInfoView>,
    names: Seq<String>,
    inventory: Seq<FankitId>,
)
    requires
        forall|i: int|
            0 <= i < discovered.len() ==> exists|j: int, e: int|
                0 <= j < infos.len() && 0 <= e < names.len() && infos[j].id == #[trigger] discovered[i]
                    && names[e]@ == item_name_spec(infos[j]),
        forall|id: FankitId| #[trigger] inventory.contains(id) <==> inventory_has(names, id),
    ensures
        missing(discovered, inventory).len() == 0,
{
    if missing(discovered, inventory).len() > 0 {
        let m = missing(discovered, inventory);
        let id = m[0];
        assert(m.contains(id));
        lemma_missing_contains(discovered, inventory, id);
        let i = choose|i: int| 0 <= i < discovered.len() && discovered[i] == id;
        let (j, e) = choose|j: int, e: int|
            0 <= j < infos.len() && 0 <= e < names.len() && infos[j].id == #[trigger] discovered[i]
                && names[e]@ == item_name_spec(infos[j]);
        lemma_item_name_entry(infos[j]);
        assert(entry_id_spec(names[e]@) == Some(id));
        assert(inventory_has(names, id));
    }
}

/// Where a download run stands, that is which action it waits on.
#[derive(Debug, Clone, Copy, PartialEq, Eq, Structural)]
pub enum DownloadStage {
    /// Waits for the page of the current fankit.
    Loading,
    /// Waits for the current fankit's directory.
    CreatingDir,
    /// Waits for the current image.
    Fetching,
    /// Waits for the pause after the current fankit.
    Sleeping,
    /// Every planned fankit is done.
    Finished,
    /// A fankit's page could not be read; the run is over.
    Aborted(FankitInfoError),
}

/// What the driver of a download run is to do next.
#[derive(Debug)]
pub enum DownloadAction {
    /// Fetch and read the page of this fankit.
    Load(FankitId),
    /// Create the item directory of this name.
    CreateDir(String),
    /// Fetch the image at `url` and save it in the item directory as `file`.
    FetchImage { url: String, file: String },
    /// Pause for the crawl delay.
    Sleep,
    /// Stop the run with this error.
    Abort(FankitInfoError),
    /// Stop the run: every planned fankit is done.
    Done,
}

/// What the driver reports back after an action.
#[derive(Debug)]
pub enum DownloadEvent {
    /// The fankit's page was read, or held no metadata.
    Loaded(Result<FankitInfo, FankitInfoError>),
    /// The item directory was created (`true`) or not.
    DirCreated(bool),
    /// The image was fetched and written (`true`) or not.
    ImageDone(bool),
    /// The pause is over.
    Slept,
}

/// A `DownloadAction` with its strings as character sequences.
pub ghost enum DownloadActionView {
    Load(FankitId),
    CreateDir(Seq<char>),
    FetchImage { url: Seq<char>, file: Seq<char> },
    Sleep,
    Abort(FankitInfoError),
    Done,
}

/// A `DownloadEvent` with the metadata as its view.
pub ghost enum DownloadEventView {
    Loaded(Result<FankitInfoView, FankitInfoError>),
    DirCreated(bool),
    ImageDone(bool),
    Slept,
}

impl View for DownloadAction {
    type V = DownloadActionView;

    open spec fn view(&self) -> DownloadActionView {
        match self {
            DownloadAction::Load(id) => DownloadActionView::Load(*id),
            DownloadAction::CreateDir(name) => DownloadActionView::CreateDir(name@),
            DownloadAction::FetchImage { url, file } => DownloadActionView::FetchImage {
                url: url@,
                file: file@,
            },
            DownloadAction::Sleep => DownloadActionView::Sleep,
            DownloadAction::Abort(e) => DownloadActionView::Abort(*e),
            DownloadAction::Done => DownloadActionView::Done,
        }
    }
}

impl View for DownloadEvent {
    type V = DownloadEventView;

    open spec fn view(&self) -> DownloadEventView {
        match self {
            DownloadEvent::Loaded(Ok(info)) => DownloadEventView::Loaded(Ok(info@)),
            DownloadEvent::Loaded(Err(e)) => DownloadEventView::Loaded(Err(*e)),
            DownloadEvent::DirCreated(b) => DownloadEventView::DirCreated(*b),
            DownloadEvent::ImageDone(b) => DownloadEventView::ImageDone(*b),
            DownloadEvent::Slept => DownloadEventView::Slept,
        }
    }
}

/// The download of the planned fankits, one action at a time.
pub struct DownloadRun {
    /// Fankits to fetch, in order.
    plan: Vec<FankitId>,
    /// Index in `plan` of the current fankit.
    next_item: usize,
    /// Directory name of the current fankit.
    item_name: String,
    /// Image URLs of the current fankit.
    images: Vec<String>,
    /// Index in `images` of the current image.
    next_image: usize,
    /// The action the run waits on.
    stage: DownloadStage,
}

/// What a `DownloadRun` holds.
pub ghost struct DownloadRunView {
    pub plan: Seq<FankitId>,
    pub next_item: int,
    pub item_name: Seq<char>,
    pub images: Seq<Seq<char>>,
    pub next_image: int,
    pub stage: DownloadStage,
}

impl DownloadRunView {
    /// The current fankit and image exist wherever the stage needs them, and
    /// the current image has a file name.
    pub open spec fn wf(self) -> bool {
        &&& 0 <= self.next_item <= self.plan.len()
        &&& 0 <= self.next_image <= self.images.len()
        &&& (self.stage is Loading || self.stage is CreatingDir || self.stage is Fetching
            || self.stage is Sleeping) ==> self.next_item < self.plan.len()
        &&& self.stage is Fetching ==> self.next_image < self.images.len()
            && image_file_name_spec(self.images[self.next_image]) is Some
    }
}

impl View for DownloadRun {
    type V = DownloadRunView;

    closed spec fn view(&self) -> DownloadRunView {
        DownloadRunView {
            plan: self.plan@,
            next_item: self.next_item as int,
            item_name: self.item_name@,
            images: self.images@.map_values(|s: String| s@),
            next_image: self.next_image as int,
            stage: self.stage,
        }
    }
}

/// Index of the first image from `from` on that has a file name, or the
/// number of images if there is none.
pub open spec fn next_fetchable(images: Seq<Seq<char>>, from: int) -> int
    decreases images.len() - from,
{
    if from < 0 || from >= images.len() {
        images.len() as int
    } else if image_file_name_spec(images[from]) is Some {
        from
    } else {
        next_fetchable(images, from + 1)
    }
}

/// The action that a run in state `v` waits on.
pub open spec fn current_action(v: DownloadRunView) -> DownloadActionView {
    match v.stage {
        DownloadStage::Loading => DownloadActionView::Load(v.plan[v.next_item]),
        DownloadStage::CreatingDir => DownloadActionView::CreateDir(v.item_name),
        DownloadStage::Fetching => DownloadActionView::FetchImage {
            url: v.images[v.next_image],
            file: image_file_name_spec(v.images[v.next_image])->0,
        },
        DownloadStage::Sleeping => DownloadActionView::Sleep,
        DownloadStage::Finished => DownloadActionView::Done,
        DownloadStage::Aborted(e) => DownloadActionView::Abort(e),
    }
}

/// Moves on to the first image from `from` on that has a file name, or to
/// the pause after the fankit when none is left.
pub open spec fn images_from(v: DownloadRunView, from: int) -> (DownloadRunView, DownloadActionView) {
    let k = next_fetchable(v.images, from);
    if k < v.images.len() {
        let w = DownloadRunView {
            plan: v.plan,
            next_item: v.next_item,
            item_name: v.item_name,
            images: v.images,
            next_image: k,
            stage: DownloadStage::Fetching,
        };
        (w, current_action(w))
    } else {
        (
            DownloadRunView {
                plan: v.plan,
                next_item: v.next_item,
                item_name: v.item_name,
                images: v.images,
                next_image: v.images.len() as int,
                stage: DownloadStage::Sleeping,
            },
            DownloadActionView::Sleep,
        )
    }
}

/// The run in state `v` with stage `stage`.
pub open spec fn with_stage(v: DownloadRunView, stage: DownloadStage) -> DownloadRunView {
    DownloadRunView {
        plan: v.plan,
        next_item: v.next_item,
        item_name: v.item_name,
        images: v.images,
        next_image: v.next_image,
        stage,
    }
}

/// One step of the download policy: the next state and action after the
/// event `ev`. A fankit whose page gives no metadata aborts the run. A
/// failed directory creation and a failed image are passed over, and the
/// next image is tried. After the last image of a fankit comes one pause,
/// then the next fankit. An event that does not answer the awaited action
/// changes nothing.
pub open spec fn download_step(v: DownloadRunView, ev: DownloadEventView) -> (
    DownloadRunView,
    DownloadActionView,
) {
    match (v.stage, ev) {
        (DownloadStage::Loading, DownloadEventView::Loaded(Err(e))) => (
            with_stage(v, DownloadStage::Aborted(e)),
            DownloadActionView::Abort(e),
        ),
        (DownloadStage::Loading, DownloadEventView::Loaded(Ok(info))) => (
            DownloadRunView {
                plan: v.plan,
                next_item: v.next_item,
                item_name: item_name_spec(info),
                images: info.image_urls,
                next_image: 0,
                stage: DownloadStage::CreatingDir,
            },
            DownloadActionView::CreateDir(item_name_spec(info)),
        ),
        (DownloadStage::CreatingDir, DownloadEventView::DirCreated(_)) => images_from(v, 0),
        (DownloadStage::Fetching, DownloadEventView::ImageDone(_)) => images_from(
            v,
            v.next_image + 1,
        ),
        (DownloadStage::Sleeping, DownloadEventView::Slept) => if v.next_item + 1 < v.plan.len() {
            let w = DownloadRunView {
                plan: v.plan,
                next_item: v.next_item + 1,
                item_name: v.item_name,
                images: v.images,
                next_image: v.next_image,
                stage: DownloadStage::Loading,
            };
            (w, DownloadActionView::Load(v.plan[v.next_item + 1]))
        } else {
            (
                DownloadRunView {
                    plan: v.plan,
                    next_item: v.plan.len() as int,
                    item_name: v.item_name,
                    images: v.images,
                    next_image: v.next_image,
                    stage: DownloadStage::Finished,
                },
                DownloadActionView::Done,
            )
        },
        _ => (v, current_action(v)),
    }
}

impl DownloadRun {
    /// The state is well formed.
    pub closed spec fn wf(&self) -> bool {
        self@.wf()
    }

    /// Starts the download of the fankits of `discovered` that `inventory`
    /// does not hold.
    pub fn new(discovered: &Vec<FankitId>, inventory: &Vec<FankitId>) -> (r: (Self, DownloadAction))
        ensures
            r.0.wf(),
            r.0@.plan == missing(discovered@, inventory@),
            r.0@.next_item == 0,
            r.0@.stage == (if r.0@.plan.len() == 0 {
                DownloadStage::Finished
            } else {
                DownloadStage::Loading
            }),
            r.1@ == (if r.0@.plan.len() == 0 {
                DownloadActionView::Done
            } else {
                DownloadActionView::Load(r.0@.plan[0])
            }),
    {
        let plan = download_plan(discovered, inventory);
        let empty = plan.len() == 0;
        let run = DownloadRun {
            plan,
            next_item: 0,
            item_name: String::new(),
            images: Vec::new(),
            next_image: 0,
            stage: if empty {
                DownloadStage::Finished
            } else {
                DownloadStage::Loading
            },
        };
        if empty {
            (run, DownloadAction::Done)
        } else {
            let first = run.plan[0];
            (run, DownloadAction::Load(first))
        }
    }

    /// The action the run waits on.
    fn current(&self) -> (a: DownloadAction)
        requires
            self.wf(),
        ensures
            a@ == current_action(self@),
    {
        match self.stage {
            DownloadStage::Loading => DownloadAction::Load(self.plan[self.next_item]),
            DownloadStage::CreatingDir => DownloadAction::CreateDir(self.item_name.clone()),
            DownloadStage::Fetching => {
                let url = self.images[self.next_image].clone();
                match image_file_name(url.as_str()) {
                    Some(file) => DownloadAction::FetchImage { url, file },
                    None => {
                        assert(false);
                        DownloadAction::Done
                    },
                }
            },
            DownloadStage::Sleeping => DownloadAction::Sleep,
            DownloadStage::Finished => DownloadAction::Done,
            DownloadStage::Aborted(e) => DownloadAction::Abort(e),
        }
    }

    /// Moves on to the first image from `from` on that has a file name, or
    /// to the pause.
    fn images_from(&mut self, from: usize) -> (a: DownloadAction)
        requires
            old(self).wf(),
            from <= old(self)@.images.len(),
            old(self)@.next_item < old(self)@.plan.len(),
        ensures
            final(self).wf(),
            (final(self)@, a@) == images_from(old(self)@, from as int),
    {
        let ghost v = self@;
        let mut k = from;
        while k < self.images.len() && image_file_name(self.images[k].as_str()).is_none()
            invariant
                self@ == v,
                from <= k <= self.images@.len(),
                next_fetchable(v.images, from as int) == next_fetchable(v.images, k as int),
            decreases self.images@.len() - k,
        {
            k += 1;
        }
        if k < self.images.len() {
            self.next_image = k;
            self.stage = DownloadStage::Fetching;
            self.current()
        } else {
            self.next_image = self.images.len();
            self.stage = DownloadStage::Sleeping;
            DownloadAction::Sleep
        }
    }

    /// Takes in the outcome of the last action and gives the next one.
    pub fn step(&mut self, ev: DownloadEvent) -> (a: DownloadAction)
        requires
            old(self).wf(),
        ensures
            final(self).wf(),
            (final(self)@, a@) == download_step(old(self)@, ev@),
    {
        assert(self@.images.len() == self.images@.len());
        assert(self@.plan.len() == self.plan@.len());
        match (self.stage, ev) {
            (DownloadStage::Loading, DownloadEvent::Loaded(Err(e))) => {
                self.stage = DownloadStage::Aborted(e);
                DownloadAction::Abort(e)
            },
            (DownloadStage::Loading, DownloadEvent::Loaded(Ok(info))) => {
                self.item_name = info.item_name();
                self.images = info.image_urls();
                self.next_image = 0;
                self.stage = DownloadStage::CreatingDir;
                DownloadAction::CreateDir(self.item_name.clone())
            },
            (DownloadStage::CreatingDir, DownloadEvent::DirCreated(_)) => self.images_from(0),
            (DownloadStage::Fetching, DownloadEvent::ImageDone(_)) => {
                let n = self.images.len();
                assert(self.next_image < n);
                let from = self.next_image + 1;
                self.images_from(from)
            },
            (DownloadStage::Sleeping, DownloadEvent::Slept) => {
                let n = self.plan.len();
                assert(self.next_item < n);
                if self.next_item + 1 < self.plan.len() {
                    self.next_item = self.next_item + 1;
                    self.stage = DownloadStage::Loading;
                    DownloadAction::Load(self.plan[self.next_item])
                } else {
                    self.next_item = self.plan.len();
                    self.stage = DownloadStage::Finished;
                    DownloadAction::Done
                }
            },
            _ => self.current(),
        }
    }
}

/// A failed image is logged and passed over: after a failed fetch or write
/// the run goes on exactly as after a successful one, with the next image
/// that has a file name, or with the pause once no image is left. A failed
/// directory creation likewise leads on to the images.
pub proof fn lemma_failures_are_passed_over(v: DownloadRunView)
    requires
        v.wf(),
    ensures
        v.stage is Fetching ==> download_step(v, DownloadEventView::ImageDone(false))
            == download_step(v, DownloadEventView::ImageDone(true)),
        v.stage is Fetching && next_fetchable(v.images, v.next_image + 1) < v.images.len() ==> {
            let k = next_fetchable(v.images, v.next_image + 1);
            download_step(v, DownloadEventView::ImageDone(false)).1
                == DownloadActionView::FetchImage {
                url: v.images[k],
                file: image_file_name_spec(v.images[k])->0,
            }
        },
        v.stage is Fetching && next_fetchable(v.images, v.next_image + 1) >= v.images.len()
            ==> download_step(v, DownloadEventView::ImageDone(false)).1
            == DownloadActionView::Sleep,
        v.stage is CreatingDir ==> download_step(v, DownloadEventView::DirCreated(false))
            == download_step(v, DownloadEventView::DirCreated(true)),
{
}

/// A fankit whose page gives no metadata stops the run for good: the run
/// aborts with that error and answers every later event with the same
/// abort.
pub proof fn lemma_failed_load_aborts(
    v: DownloadRunView,
    e: FankitInfoError,
    later: DownloadEventView,
)
    requires
        v.wf(),
        v.stage is Loading,
    ensures
        download_step(v, DownloadEventView::Loaded(Err(e))).1 == DownloadActionView::Abort(e),
        download_step(download_step(v, DownloadEventView::Loaded(Err(e))).0, later) == (
            download_step(v, DownloadEventView::Loaded(Err(e))).0,
            DownloadActionView::Abort(e),
        ),
{
}

/// Each fankit ends with one pause: the pause is asked for only once no
/// image of the fankit is left, and after it the run loads the next
/// planned fankit or, after the last, is done.
pub proof fn lemma_pause_between_items(v: DownloadRunView)
    requires
        v.wf(),
        v.stage is Sleeping,
    ensures
        v.next_item + 1 < v.plan.len() ==> download_step(v, DownloadEventView::Slept).1
            == DownloadActionView::Load(v.plan[v.next_item + 1]),
        v.next_item + 1 >= v.plan.len() ==> download_step(v, DownloadEventView::Slept).1
            == DownloadActionView::Done,
{
}

/// Whatever the events, a well-formed run stays well formed, and the plan
/// never changes.
pub proof fn lemma_step_keeps_plan(v: DownloadRunView, ev: DownloadEventView)
    requires
        v.wf(),
    ensures
        download_step(v, ev).0.wf(),
        download_step(v, ev).0.plan == v.plan,
{
    lemma_next_fetchable_bounds(v.images, 0);
    if v.stage is Fetching {
        lemma_next_fetchable_bounds(v.images, v.next_image + 1);
    }
}

proof fn lemma_next_fetchable_bounds(images: Seq<Seq<char>>, from: int)
    requires
        0 <= from <= images.len(),
    ensures
        from <= next_fetchable(images, from) <= images.len(),
        next_fetchable(images, from) < images.len() ==> image_file_name_spec(
            images[next_fetchable(images, from)],
        ) is Some,
    decreases images.len() - from,
{
    if from < images.len() && !(image_file_name_spec(images[from]) is Some) {
        lemma_next_fetchable_bounds(images, from + 1);
    }
}

} // verus!
